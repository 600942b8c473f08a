//! When the device looks for an update of itself, and how it installs one.
use vstd::prelude::*;

use crate::sync;
use crate::text;
use crate::text::{cat, replace, split, to_lowercase};

verus! {

/// A day, in milliseconds.
pub const DUR_ONE_DAY: u64 = 86_400_000;

/// The least time between two checks, in milliseconds.
pub const MIN_INTERVAL: u64 = 600_000;

/// The time until the next try after a check that failed or had to wait, in milliseconds.
pub const RETRY_INTERVAL: u64 = 1_800_000;

/// The wait before the first check, in milliseconds.
pub const FIRST_CHECK: u64 = 30_000;

/// A message to the loop that looks for updates.
#[derive(PartialEq, Eq, Structural, Clone, Copy, Debug)]
pub enum UpdateMsg {
    /// Look for an update now.
    CheckUpdate,
    /// End.
    Exit,
}

/// What other threads tell the loop that looks for updates.
pub struct UpdateQueue {
    /// Whether the loop was started.
    pub started: bool,
    /// The messages to it, oldest first.
    pub messages: Vec<UpdateMsg>,
    /// The sessions in which this device controls another.
    pub controlling: usize,
}

impl UpdateQueue {
    /// Nothing was started or told.
    pub fn new() -> (r: UpdateQueue)
        ensures
            !r.started,
            r.messages@.len() == 0,
            r.controlling == 0,
    {
        UpdateQueue { started: false, messages: Vec::new(), controlling: 0 }
    }
}

/// Notes how many sessions there are in which this device controls another.
pub fn update_controlling_session_count(queue: &mut UpdateQueue, count: usize)
    ensures
        final(queue).controlling == count,
        final(queue).started == old(queue).started,
        final(queue).messages@ == old(queue).messages@,
{
    queue.controlling = count;
}

/// Starts the loop that looks for updates: the first call says that its thread is to be made.
pub fn start_auto_update(queue: &mut UpdateQueue) -> (spawn: bool)
    ensures
        spawn == !old(queue).started,
        final(queue).started,
        final(queue).messages@ == old(queue).messages@,
        final(queue).controlling == old(queue).controlling,
{
    let spawn = !queue.started;
    queue.started = true;
    spawn
}

/// Tells the loop to look for an update now, and starts it where it was not.
pub fn manually_check_update(queue: &mut UpdateQueue) -> (spawn: bool)
    ensures
        spawn == !old(queue).started,
        final(queue).started,
        final(queue).messages@ == old(queue).messages@.push(UpdateMsg::CheckUpdate),
        final(queue).controlling == old(queue).controlling,
{
    let spawn = start_auto_update(queue);
    queue.messages.push(UpdateMsg::CheckUpdate);
    spawn
}

/// Tells the loop to end, and starts it where it was not.
pub fn stop_auto_update(queue: &mut UpdateQueue) -> (spawn: bool)
    ensures
        spawn == !old(queue).started,
        final(queue).started,
        final(queue).messages@ == old(queue).messages@.push(UpdateMsg::Exit),
        final(queue).controlling == old(queue).controlling,
{
    let spawn = start_auto_update(queue);
    queue.messages.push(UpdateMsg::Exit);
    spawn
}

/// Takes the oldest message.
pub fn next_message(queue: &mut UpdateQueue) -> (r: Option<UpdateMsg>)
    ensures
        old(queue).messages@.len() == 0 ==> r is None && final(queue).messages@.len() == 0,
        old(queue).messages@.len() > 0 ==> r == Some(old(queue).messages@[0])
            && final(queue).messages@ == old(queue).messages@.drop_first(),
        final(queue).started == old(queue).started,
        final(queue).controlling == old(queue).controlling,
{
    if queue.messages.len() == 0 {
        return None;
    }
    let m = queue.messages.remove(0);
    assert(queue.messages@ =~= old(queue).messages@.drop_first());
    Some(m)
}

/// Whether nobody is connected, in either direction.
pub fn has_no_active_conns(incoming: usize, controlling: usize) -> (r: bool)
    ensures
        r == (incoming == 0 && controlling == 0),
{
    incoming == 0 && controlling == 0
}

/// The program whose processes show that this device controls another.
pub fn controlling_exe(app_name: &str) -> (r: String)
    ensures
        r@ == text::lowercase(app_name@) + ".exe"@,
{
    cat(to_lowercase(app_name).as_str(), ".exe")
}

/// The first arguments of the processes that control another device.
pub open spec fn controlling_args_v() -> Seq<Seq<char>> {
    seq![
        "--connect"@,
        "--play"@,
        "--file-transfer"@,
        "--view-camera"@,
        "--port-forward"@,
        "--rdp"@,
    ]
}

/// The first arguments of the processes that control another device.
pub fn controlling_args() -> (r: Vec<String>)
    ensures
        text::texts(r@) == controlling_args_v(),
{
    let mut v: Vec<String> = Vec::new();
    v.push("--connect".to_owned());
    v.push("--play".to_owned());
    v.push("--file-transfer".to_owned());
    v.push("--view-camera".to_owned());
    v.push("--port-forward".to_owned());
    v.push("--rdp".to_owned());
    assert(text::texts(v@) =~= controlling_args_v());
    v
}

/// Whether none of the counts of such processes says that there is one.
pub fn has_no_controlling_conns(processes: &Vec<usize>) -> (r: bool)
    ensures
        r == (forall|i: int| 0 <= i < processes@.len() ==> (#[trigger] processes@[i]) == 0),
{
    let mut i: usize = 0;
    while i < processes.len()
        invariant
            i <= processes@.len(),
            forall|k: int| 0 <= k < i ==> (#[trigger] processes@[k]) == 0,
        decreases processes@.len() - i,
    {
        if processes[i] != 0 {
            return false;
        }
        i = i + 1;
    }
    true
}

/// What the loop that looks for updates knows. Times are in milliseconds of a clock that never
/// goes back.
pub struct CheckLoop {
    /// When it last looked.
    pub last_check: u64,
    /// How long it waits for a message.
    pub interval: u64,
}

impl CheckLoop {
    /// The loop after its first check.
    pub fn new(now: u64) -> (r: CheckLoop)
        ensures
            r == (CheckLoop { last_check: now, interval: DUR_ONE_DAY }),
    {
        CheckLoop { last_check: now, interval: DUR_ONE_DAY }
    }
}

/// What the loop does next.
#[derive(PartialEq, Eq, Structural, Clone, Copy, Debug)]
pub enum CheckStep {
    /// It waits again.
    Wait,
    /// It looks for an update; `manually` where it was told to.
    Check { manually: bool },
    /// It ends.
    Stop,
}

/// What the loop does next. `msg` is the message that came, or none where the wait ran out;
/// `idle` says whether nobody is connected.
pub open spec fn step_v(last_check: u64, msg: Option<UpdateMsg>, idle: bool, now: u64) -> CheckStep {
    if msg == Some(UpdateMsg::Exit) {
        CheckStep::Stop
    } else if sync::elapsed(last_check, now) < MIN_INTERVAL || !idle {
        CheckStep::Wait
    } else {
        CheckStep::Check { manually: msg == Some(UpdateMsg::CheckUpdate) }
    }
}

/// Takes a message, or that none came, and says what the loop does next. While somebody is
/// connected the next try comes sooner.
pub fn check_step(state: &mut CheckLoop, msg: Option<UpdateMsg>, idle: bool, now: u64) -> (r:
    CheckStep)
    ensures
        r == step_v(old(state).last_check, msg, idle, now),
        final(state).last_check == old(state).last_check,
        final(state).interval == (if msg != Some(UpdateMsg::Exit) && sync::elapsed(
            old(state).last_check,
            now,
        ) >= MIN_INTERVAL && !idle {
            RETRY_INTERVAL
        } else {
            old(state).interval
        }),
{
    let manually = match msg {
        Some(UpdateMsg::Exit) => {
            return CheckStep::Stop;
        },
        Some(UpdateMsg::CheckUpdate) => true,
        None => false,
    };
    let passed: u64 = if now >= state.last_check {
        now - state.last_check
    } else {
        0
    };
    if passed < MIN_INTERVAL {
        return CheckStep::Wait;
    }
    if !idle {
        state.interval = RETRY_INTERVAL;
        return CheckStep::Wait;
    }
    CheckStep::Check { manually }
}

/// Notes how a check ended: after one that failed the next try comes sooner.
pub fn check_ended(state: &mut CheckLoop, ok: bool, now: u64)
    ensures
        *final(state) == (if ok {
            CheckLoop { last_check: now, interval: DUR_ONE_DAY }
        } else {
            CheckLoop { last_check: old(state).last_check, interval: RETRY_INTERVAL }
        }),
{
    if ok {
        state.last_check = now;
        state.interval = DUR_ONE_DAY;
    } else {
        state.interval = RETRY_INTERVAL;
    }
}

/// Nothing is installed under a user: the loop looks for an update only while nobody is
/// connected, and after a check that went well not before its time.
pub proof fn a_check_disturbs_nobody(last_check: u64, msg: Option<UpdateMsg>, idle: bool, now: u64)
    requires
        step_v(last_check, msg, idle, now) is Check,
    ensures
        idle,
        sync::elapsed(last_check, now) >= MIN_INTERVAL,
{
}

/// Where a new version is, and which it is.
pub struct NewVersion {
    pub url: String,
    pub version: String,
}

/// The address of a new version's directory.
pub open spec fn release_dir(update_url: Seq<char>) -> Seq<char> {
    text::replace_v(update_url, "tag"@, "download"@)
}

/// The address of a new version's package.
pub open spec fn package_url_v(update_url: Seq<char>, flutter: bool, msi: bool) -> Seq<char> {
    let dir = release_dir(update_url);
    let version = text::split_v(dir, '/').last();
    if flutter {
        dir + "/rustdesk-"@ + version + "-x86_64."@ + (if msi {
            "msi"@
        } else {
            "exe"@
        })
    } else {
        dir + "/rustdesk-"@ + version + "-x86-sciter.exe"@
    }
}

fn last_part(s: &str) -> (r: String)
    ensures
        r@ == text::split_v(s@, '/').last(),
{
    let parts = split(s, '/');
    assert(text::texts(parts@).len() == parts@.len());
    assert(text::split_v(s@, '/').len() > 0);
    assert(text::texts(parts@).last() == parts@[parts@.len() - 1]@);
    parts[parts.len() - 1].clone()
}

/// The new version that an address announces; none where it is empty.
pub fn new_version(update_url: &str, flutter: bool, msi: bool) -> (r: Option<NewVersion>)
    ensures
        match r {
            Some(n) => update_url@.len() > 0 && n.url@ == package_url_v(update_url@, flutter, msi)
                && n.version@ == text::split_v(release_dir(update_url@), '/').last(),
            None => update_url@.len() == 0,
        },
{
    if update_url.is_empty() {
        return None;
    }
    proof {
        reveal_strlit("tag");
    }
    let dir = replace(update_url, "tag", "download");
    let version = last_part(dir.as_str());
    let url = if flutter {
        dir.concat("/rustdesk-").concat(version.as_str()).concat("-x86_64.").concat(
            if msi {
                "msi"
            } else {
                "exe"
            },
        )
    } else {
        dir.concat("/rustdesk-").concat(version.as_str()).concat("-x86-sciter.exe")
    };
    Some(NewVersion { url, version })
}

/// The new version that is to be fetched: a check was asked for, or the device may look by
/// itself; the console was reached; and it announces one.
pub fn check_update(
    manually: bool,
    allowed: bool,
    reached: bool,
    update_url: &str,
    flutter: bool,
    msi: bool,
) -> (r: Option<NewVersion>)
    ensures
        match r {
            Some(n) => (manually || allowed) && reached && update_url@.len() > 0 && n.url@
                == package_url_v(update_url@, flutter, msi) && n.version@ == text::split_v(
                release_dir(update_url@),
                '/',
            ).last(),
            None => !(manually || allowed) || !reached || update_url@.len() == 0,
        },
{
    if !(manually || allowed) || !reached {
        return None;
    }
    new_version(update_url, flutter, msi)
}

/// A package of the system's installer is used where the client was installed by it and is not
/// one of the user's own. Where that is not known, it was not.
pub fn update_msi(installed_by_msi: Option<bool>, custom: bool) -> (r: bool)
    ensures
        r == (installed_by_msi == Some(true) && !custom),
{
    match installed_by_msi {
        Some(m) => m && !custom,
        None => false,
    }
}

/// The name under which the file of an address is saved in the directory for temporary files.
pub fn get_download_file_from_url(url: &str) -> (r: String)
    ensures
        r@ == text::split_v(url@, '/').last(),
{
    last_part(url)
}

/// Where an installation stands.
#[derive(PartialEq, Eq, Structural, Clone, Copy, Debug)]
pub enum Install {
    /// The package of the system's installer is to be run.
    RunMsi,
    /// A directory is to be prepared for a client of one's own.
    PrepareStaging,
    /// What an earlier client left is to be removed.
    ClearStaging,
    /// The update is to be launched where the user sees it.
    Launch { staged: bool },
    /// The update is to be run by the service itself.
    RunDirect { staged: bool },
    /// The update failed: what was prepared for it is to be removed, and so is the package.
    Discard { staged: bool },
    /// The package is not touched any more.
    Finished { launched: bool },
}

/// How the last action ended.
#[derive(PartialEq, Eq, Structural, Clone, Copy, Debug)]
pub enum Outcome {
    /// It was done.
    Succeeded,
    /// Nothing went wrong, but nothing was started either.
    Nothing,
    /// It failed.
    Failed,
}

/// Begins an installation. `path_known` says whether the package's path is a text, `session`
/// whether the session is known in which this process runs.
pub fn update_new_version(path_known: bool, session: bool, msi: bool, custom: bool) -> (r: Install)
    ensures
        r == (if !path_known {
            Install::Finished { launched: false }
        } else if !session {
            Install::Discard { staged: false }
        } else if msi {
            Install::RunMsi
        } else if custom {
            Install::PrepareStaging
        } else {
            Install::ClearStaging
        }),
{
    if !path_known {
        return Install::Finished { launched: false };
    }
    if !session {
        return Install::Discard { staged: false };
    }
    if msi {
        Install::RunMsi
    } else if custom {
        Install::PrepareStaging
    } else {
        Install::ClearStaging
    }
}

/// The next step of an installation. `root` says whether this is the system's service.
pub open spec fn next_install(at: Install, outcome: Outcome, root: bool) -> Install {
    match at {
        Install::RunMsi => if outcome == Outcome::Failed {
            Install::Discard { staged: false }
        } else {
            Install::Finished { launched: true }
        },
        Install::PrepareStaging => if outcome == Outcome::Failed {
            Install::Discard { staged: false }
        } else {
            Install::Launch { staged: true }
        },
        Install::ClearStaging => Install::Launch { staged: false },
        Install::Launch { staged } => if outcome == Outcome::Succeeded {
            Install::Finished { launched: true }
        } else if root {
            Install::RunDirect { staged }
        } else {
            Install::Discard { staged }
        },
        Install::RunDirect { staged } => if outcome == Outcome::Failed {
            Install::Discard { staged }
        } else {
            Install::Finished { launched: true }
        },
        Install::Discard { .. } => Install::Finished { launched: false },
        Install::Finished { launched } => Install::Finished { launched },
    }
}

/// The next step of an installation.
pub fn install_step(at: Install, outcome: Outcome, root: bool) -> (r: Install)
    ensures
        r == next_install(at, outcome, root),
{
    match at {
        Install::RunMsi => if outcome == Outcome::Failed {
            Install::Discard { staged: false }
        } else {
            Install::Finished { launched: true }
        },
        Install::PrepareStaging => if outcome == Outcome::Failed {
            Install::Discard { staged: false }
        } else {
            Install::Launch { staged: true }
        },
        Install::ClearStaging => Install::Launch { staged: false },
        Install::Launch { staged } => if outcome == Outcome::Succeeded {
            Install::Finished { launched: true }
        } else if root {
            Install::RunDirect { staged }
        } else {
            Install::Discard { staged }
        },
        Install::RunDirect { staged } => if outcome == Outcome::Failed {
            Install::Discard { staged }
        } else {
            Install::Finished { launched: true }
        },
        Install::Discard { staged: _ } => Install::Finished { launched: false },
        Install::Finished { launched } => Install::Finished { launched },
    }
}

/// The steps of an installation in turn.
pub open spec fn install_after(at: Install, outcomes: Seq<Outcome>, root: bool) -> Install
    decreases outcomes.len(),
{
    if outcomes.len() == 0 {
        at
    } else {
        install_after(next_install(at, outcomes[0], root), outcomes.drop_first(), root)
    }
}

/// How many steps are still possible.
spec fn steps_left(at: Install) -> nat {
    match at {
        Install::PrepareStaging => 4,
        Install::ClearStaging => 4,
        Install::Launch { .. } => 3,
        Install::RunDirect { .. } => 2,
        Install::RunMsi => 2,
        Install::Discard { .. } => 1,
        Install::Finished { .. } => 0,
    }
}

/// An installation ends after at most four steps, however they turn out.
pub proof fn an_installation_ends(at: Install, outcomes: Seq<Outcome>, root: bool)
    requires
        outcomes.len() >= 4,
    ensures
        install_after(at, outcomes, root) is Finished,
{
    lemma_steps(at, outcomes, root);
}

proof fn lemma_steps(at: Install, outcomes: Seq<Outcome>, root: bool)
    requires
        outcomes.len() >= steps_left(at),
    ensures
        install_after(at, outcomes, root) is Finished,
    decreases outcomes.len(),
{
    if outcomes.len() > 0 {
        lemma_steps(next_install(at, outcomes[0], root), outcomes.drop_first(), root);
    }
}

/// An installation that did not launch its update removes the package before it ends, and one
/// that did never removes it.
pub proof fn a_failed_installation_discards_the_package(at: Install, outcome: Outcome, root: bool)
    requires
        !(at is Finished),
    ensures
        next_install(at, outcome, root) == (Install::Finished { launched: false }) ==> at is Discard,
        at is Discard ==> next_install(at, outcome, root) == (Install::Finished {
            launched: false,
        }),
{
}

/// The service runs an update itself only where no user could be shown it.
pub proof fn the_service_updates_where_nobody_is(at: Install, outcome: Outcome, root: bool)
    requires
        !(at is RunDirect),
        next_install(at, outcome, root) is RunDirect,
    ensures
        root,
        at is Launch,
        outcome != Outcome::Succeeded,
{
}

/// The command that launches an update where the user sees it.
pub fn launch_command(path: &str) -> (r: String)
    ensures
        r@ == path@ + " --update"@,
{
    cat(path, " --update")
}

/// The loop that looks for updates ends where it is told to; else it looks where its last look
/// is ten minutes ago and nobody is disturbed, and waits where not.
pub proof fn an_update_is_looked_for_in_time(
    last_check: u64,
    msg: Option<UpdateMsg>,
    idle: bool,
    now: u64,
)
    requires
        now >= last_check,
    ensures
        step_v(last_check, msg, idle, now) == CheckStep::Stop <==> msg == Some(UpdateMsg::Exit),
        msg != Some(UpdateMsg::Exit) ==> (step_v(last_check, msg, idle, now) == CheckStep::Wait
            <==> now - last_check < 600_000 || !idle),
        msg == Some(UpdateMsg::CheckUpdate) && idle && now - last_check >= 600_000 ==> step_v(
            last_check,
            msg,
            idle,
            now,
        ) == (CheckStep::Check { manually: true }),
        msg is None && idle && now - last_check >= 600_000 ==> step_v(last_check, msg, idle, now)
            == (CheckStep::Check { manually: false }),
{
}

/// An installation goes on by what came of its last step, and a step that fails leads to another
/// way or to the removal of what was prepared.
pub proof fn an_installation_takes_its_steps(staged: bool, root: bool)
    ensures
        next_install(Install::RunMsi, Outcome::Succeeded, root) == (Install::Finished {
            launched: true,
        }),
        next_install(Install::RunMsi, Outcome::Failed, root) == (Install::Discard { staged: false }),
        next_install(Install::PrepareStaging, Outcome::Succeeded, root) == (Install::Launch {
            staged: true,
        }),
        next_install(Install::PrepareStaging, Outcome::Failed, root) == (Install::Discard {
            staged: false,
        }),
        next_install(Install::ClearStaging, Outcome::Succeeded, root) == (Install::Launch {
            staged: false,
        }),
        next_install(Install::ClearStaging, Outcome::Failed, root) == (Install::Launch {
            staged: false,
        }),
        next_install(Install::Launch { staged }, Outcome::Succeeded, root) == (Install::Finished {
            launched: true,
        }),
        next_install(Install::Launch { staged }, Outcome::Nothing, true) == (Install::RunDirect {
            staged,
        }),
        next_install(Install::Launch { staged }, Outcome::Failed, true) == (Install::RunDirect {
            staged,
        }),
        next_install(Install::Launch { staged }, Outcome::Nothing, false) == (Install::Discard {
            staged,
        }),
        next_install(Install::Launch { staged }, Outcome::Failed, false) == (Install::Discard {
            staged,
        }),
        next_install(Install::RunDirect { staged }, Outcome::Succeeded, root) == (
        Install::Finished { launched: true }),
        next_install(Install::RunDirect { staged }, Outcome::Failed, root) == (Install::Discard {
            staged,
        }),
        next_install(Install::Discard { staged }, Outcome::Succeeded, root) == (Install::Finished {
            launched: false,
        }),
{
}

/// The package of a release stands in its download directory under the release's own name.
pub proof fn a_release_names_its_package(dir: Seq<char>, version: Seq<char>, update_url: Seq<char>)
    requires
        !version.contains('/'),
        release_dir(update_url) == dir + seq!['/'] + version,
        text::split_v(dir, '/').len() > 0,
    ensures
        text::split_v(release_dir(update_url), '/').last() == version,
        package_url_v(update_url, true, true) == release_dir(update_url) + "/rustdesk-"@ + version
            + "-x86_64."@ + "msi"@,
        package_url_v(update_url, true, false) == release_dir(update_url) + "/rustdesk-"@ + version
            + "-x86_64."@ + "exe"@,
        package_url_v(update_url, false, true) == release_dir(update_url) + "/rustdesk-"@ + version
            + "-x86-sciter.exe"@,
{
    lemma_last_part(dir, version);
}

proof fn lemma_last_part(a: Seq<char>, b: Seq<char>)
    requires
        !b.contains('/'),
    ensures
        text::split_v(a + seq!['/'] + b, '/').len() > 0,
        text::split_v(a + seq!['/'] + b, '/').last() == b,
    decreases a.len(),
{
    let s = a + seq!['/'] + b;
    crate::text::lemma_index_of_props(a, '/');
    let i = text::index_of(a, '/');
    if i >= a.len() {
        if a.contains('/') {
            let k = choose|k: int| 0 <= k < a.len() && a[k] == '/';
            assert(false);
        }
        crate::text::a_text_splits_at_its_separators(a, '/', b);
        crate::text::a_text_splits_at_its_separators(b, '/', b);
        assert((seq![a] + seq![b]).last() == b);
    } else {
        let head = a.take(i);
        let tail = a.skip(i + 1);
        if head.contains('/') {
            let k = choose|k: int| 0 <= k < head.len() && head[k] == '/';
            assert(a[k] == '/');
        }
        lemma_last_part(tail, b);
        assert(s =~= head + seq!['/'] + (tail + seq!['/'] + b));
        crate::text::a_text_splits_at_its_separators(head, '/', tail + seq!['/'] + b);
        let rest = text::split_v(tail + seq!['/'] + b, '/');
        assert((seq![head] + rest).last() == rest.last());
    }
}

} // verus!
