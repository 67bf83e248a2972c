//! Planning for the installer: backup names for displaced files, path
//! joining, the links that set up an agent, what to do with whatever stands
//! where a link goes, and the steps that make sure a tool is installed.
use vstd::prelude::*;
use crate::decimal::{decimal, push_decimal, lemma_decimal_len, law_decimal_injective};
use crate::text::{char_vec, string_of};

verus! {

/// The `n`-th backup name of `path`: `path.bak`, then `path.bak.1`,
/// `path.bak.2`, ...
pub open spec fn backup_name(path: Seq<char>, n: nat) -> Seq<char> {
    if n == 0 {
        path + ".bak"@
    } else {
        path + ".bak."@ + decimal(n)
    }
}

/// The largest backup number tried: 2^31 - 1, the largest positive 32-bit
/// signed integer.
pub const MAX_BACKUP: u32 = 2147483647;

/// The `n`-th backup name of `path`.
pub fn backup_candidate(path: &str, n: u32) -> (name: String)
    ensures
        name@ == backup_name(path@, n as nat),
{
    let mut name = string_of(&char_vec(path));
    if n == 0 {
        name.append(".bak");
    } else {
        name.append(".bak.");
        push_decimal(&mut name, n);
    }
    name
}

/// Whether `path` leads to an existing file or directory, following
/// symlinks (`std::path::Path::exists`). The answer depends on the file
/// system at the moment of the call, so nothing is claimed about it.
#[verifier::external_body]
pub(crate) fn path_exists(path: &str) -> bool {
    std::path::Path::new(path).exists()
}

/// What to do after probing backup name number `n`.
pub enum BackupStep {
    /// Nothing exists there: use this name.
    Use,
    /// The name is taken: probe number `n + 1` next.
    Try(u32),
    /// The name is taken and it was the last one: give up.
    GiveUp,
}

/// The next step after probing backup name number `n`, given whether
/// something was found there (`taken`).
pub open spec fn backup_step_of(n: nat, taken: bool) -> BackupStep {
    if !taken {
        BackupStep::Use
    } else if n < MAX_BACKUP {
        BackupStep::Try((n + 1) as u32)
    } else {
        BackupStep::GiveUp
    }
}

/// The next step after probing backup name number `n`: a free name is used,
/// a taken one moves on to the next number, up to `MAX_BACKUP`.
pub fn backup_step(n: u32, taken: bool) -> (s: BackupStep)
    ensures
        s == backup_step_of(n as nat, taken),
{
    if !taken {
        BackupStep::Use
    } else if n < MAX_BACKUP {
        BackupStep::Try(n + 1)
    } else {
        BackupStep::GiveUp
    }
}

/// Whether anything stands at `path`, a symlink included even when it
/// dangles (`std::path::Path::symlink_metadata` succeeds). The answer
/// depends on the file system at the moment of the call, so nothing is
/// claimed about it.
#[verifier::external_body]
pub(crate) fn path_occupied(path: &str) -> bool {
    std::path::Path::new(path).symlink_metadata().is_ok()
}

/// The answer of `probe` about `path`: one that `probe` gives for it.
pub(crate) fn ask<F: Fn(&str) -> bool>(probe: &F, path: &str) -> (b: bool)
    requires
        call_requires(*probe, (path,)),
    ensures
        call_ensures(*probe, (path,), b),
{
    probe(path)
}

/// The probe found `name` taken (`taken`) or free (`!taken`).
pub closed spec fn probed_as(name: Seq<char>, taken: bool) -> bool {
    exists|s: &str| s@ == name && call_ensures(path_occupied, (s,), taken)
}

/// Pick a non-clobbering backup path: foo.bak, then foo.bak.1, foo.bak.2, ...
/// Each name is probed in turn (a dangling symlink counts as taken) and the step after each probe is
/// `backup_step`: the first name at which nothing was found is returned;
/// `None` when every name up to `foo.bak.2147483647` was found taken. Which
/// names are taken depends on the file system, so which name comes back is
/// not claimed.
pub fn backup_path(path: &str) -> (r: Option<String>)
    ensures
        r matches Some(b) ==> exists|n: nat| n <= MAX_BACKUP && b@ == #[trigger] backup_name(path@, n),
        r matches Some(b) ==> exists|n: nat|
            #![trigger backup_name(path@, n)]
            n <= MAX_BACKUP && b@ == backup_name(path@, n) && probed_as(b@, false) && forall|m: nat|
                m < n ==> probed_as(#[trigger] backup_name(path@, m), true),
        r is None ==> forall|m: nat| m <= MAX_BACKUP ==> probed_as(#[trigger] backup_name(path@, m), true),
{
    let mut n: u32 = 0;
    loop
        invariant
            n <= MAX_BACKUP,
            forall|m: nat| m < n ==> probed_as(#[trigger] backup_name(path@, m), true),
        decreases MAX_BACKUP - n,
    {
        let cand = backup_candidate(path, n);
        let taken = ask(&path_occupied, cand.as_str());
        assert(probed_as(cand@, taken));
        match backup_step(n, taken) {
            BackupStep::Use => {
                assert(cand@ == backup_name(path@, n as nat));
                return Some(cand);
            },
            BackupStep::Try(next) => {
                assert forall|m: nat| m < next implies probed_as(#[trigger] backup_name(path@, m), true) by {
                    if m == n {
                        assert(backup_name(path@, m) == cand@);
                    }
                }
                n = next;
            },
            BackupStep::GiveUp => {
                assert forall|m: nat| m <= MAX_BACKUP implies probed_as(#[trigger] backup_name(path@, m), true) by {
                    if m == n {
                        assert(backup_name(path@, m) == cand@);
                    }
                }
                return None;
            },
        }
    }
}

/// The number of names the backup search for `path` probes from number `n`
/// on, when the names in `taken` are the ones found taken.
pub open spec fn backup_probes(path: Seq<char>, taken: Set<Seq<char>>, n: nat) -> nat
    decreases MAX_BACKUP + 1 - n,
{
    if n > MAX_BACKUP {
        0
    } else {
        match backup_step_of(n, taken.contains(backup_name(path, n))) {
            BackupStep::Try(m) => if m as nat > n {
                1 + backup_probes(path, taken, m as nat)
            } else {
                1
            },
            _ => 1,
        }
    }
}

/// The names found taken by the backup search for `path` from number `n` on.
spec fn probed_taken(path: Seq<char>, taken: Set<Seq<char>>, n: nat) -> Set<Seq<char>>
    decreases MAX_BACKUP + 1 - n,
{
    if n > MAX_BACKUP || !taken.contains(backup_name(path, n)) {
        Set::empty()
    } else if n < MAX_BACKUP {
        probed_taken(path, taken, n + 1).insert(backup_name(path, n))
    } else {
        Set::empty().insert(backup_name(path, n))
    }
}

proof fn lemma_probed_taken(path: Seq<char>, taken: Set<Seq<char>>, n: nat)
    ensures
        probed_taken(path, taken, n).subset_of(taken),
        probed_taken(path, taken, n).finite(),
        backup_probes(path, taken, n) <= probed_taken(path, taken, n).len() + 1,
        forall|x: Seq<char>| #[trigger] probed_taken(path, taken, n).contains(x) ==> exists|m: nat|
            n <= m && x == backup_name(path, m),
    decreases MAX_BACKUP + 1 - n,
{
    if n <= MAX_BACKUP && taken.contains(backup_name(path, n)) {
        let name = backup_name(path, n);
        if n < MAX_BACKUP {
            lemma_probed_taken(path, taken, n + 1);
            let rest = probed_taken(path, taken, n + 1);
            assert(backup_step_of(n, true) == BackupStep::Try((n + 1) as u32));
            if rest.contains(name) {
                let m = choose|m: nat| n + 1 <= m && name == #[trigger] backup_name(path, m);
                law_backup_names_distinct(path, n, m);
            }
            assert forall|x: Seq<char>| #[trigger] probed_taken(path, taken, n).contains(x) implies exists|m: nat|
                n <= m && x == backup_name(path, m) by {
                if x != name {
                    assert(rest.contains(x));
                }
            }
        } else {
            assert(Set::<Seq<char>>::empty().insert(name).len() == 1);
        }
    }
}

/// Law: however the file system answers, the backup search for `path`
/// probes at most one name more than there are taken names, and stops at
/// `MAX_BACKUP` without overflowing its counter.
pub proof fn law_backup_probes_bounded(path: Seq<char>, taken: Set<Seq<char>>)
    requires
        taken.finite(),
    ensures
        backup_probes(path, taken, 0) <= taken.len() + 1,
{
    lemma_probed_taken(path, taken, 0);
    vstd::set_lib::lemma_len_subset(probed_taken(path, taken, 0), taken);
}

/// Law: the backup names of a path are pairwise distinct and differ from
/// the path itself, so a backup never lands on the file it saves.
pub proof fn law_backup_names_distinct(path: Seq<char>, a: nat, b: nat)
    ensures
        backup_name(path, a) != path,
        a != b ==> backup_name(path, a) != backup_name(path, b),
{
    reveal_strlit(".bak");
    reveal_strlit(".bak.");
    lemma_decimal_len(a);
    lemma_decimal_len(b);
    let p = path.len() as int;
    assert(backup_name(path, a).len() > path.len());
    if a != b && backup_name(path, a) == backup_name(path, b) {
        if a == 0 || b == 0 {
            assert(backup_name(path, a).len() != backup_name(path, b).len());
        } else {
            assert(backup_name(path, a).subrange(p + 5, backup_name(path, a).len() as int) =~= decimal(a));
            assert(backup_name(path, b).subrange(p + 5, backup_name(path, b).len() as int) =~= decimal(b));
            law_decimal_injective(a, b);
        }
    }
}

/// `base` joined with `rel` as `PathBuf::push` does it on Unix: an absolute
/// `rel` replaces `base`; otherwise a `/` is put between them unless `base`
/// is empty or already ends in `/`.
pub open spec fn join_path(base: Seq<char>, rel: Seq<char>) -> Seq<char> {
    if rel.len() > 0 && rel[0] == '/' {
        rel
    } else if base.len() == 0 || base.last() == '/' {
        base + rel
    } else {
        base + seq!['/'] + rel
    }
}

/// `base` joined with `rel` (`Path::join` on Unix).
pub fn path_join(base: &str, rel: &str) -> (r: String)
    ensures
        r@ == join_path(base@, rel@),
{
    let b = char_vec(base);
    let t = char_vec(rel);
    if t.len() > 0 && t[0] == '/' {
        return string_of(&t);
    }
    let mut r = string_of(&b);
    if b.len() > 0 && b[b.len() - 1] != '/' {
        r.append("/");
        proof {
            reveal_strlit("/");
        }
    }
    r.append(rel);
    r
}

/// A symlink to create: the path it points to, and where it is made.
pub struct Link {
    pub target: String,
    pub at: String,
}

/// A link as values: target and location.
pub open spec fn link_view(l: Link) -> (Seq<char>, Seq<char>) {
    (l.target@, l.at@)
}

/// `c` in capitals when it is an ASCII letter (`char::to_ascii_uppercase`).
pub open spec fn upper_char(c: char) -> char {
    if 'a' <= c && c <= 'z' {
        ((c as u32) - 32) as char
    } else {
        c
    }
}

/// `s` with its ASCII letters in capitals.
pub open spec fn upper(s: Seq<char>) -> Seq<char> {
    s.map_values(|c: char| upper_char(c))
}

/// `s` with its ASCII letters in capitals (`str::to_ascii_uppercase`).
pub fn ascii_upper(s: &str) -> (r: String)
    ensures
        r@ == upper(s@),
{
    let v = char_vec(s);
    let mut out: Vec<char> = Vec::new();
    let mut i: usize = 0;
    while i < v.len()
        invariant
            v@ == s@,
            i <= v@.len(),
            out@ == upper(v@.take(i as int)),
        decreases v.len() - i,
    {
        let c = v[i];
        let u = if 'a' <= c && c <= 'z' {
            let code: u32 = c as u32;
            char_from_ascii(code - 32)
        } else {
            c
        };
        out.push(u);
        assert(upper(v@.take(i + 1)) =~= upper(v@.take(i as int)).push(upper_char(c)));
        i = i + 1;
    }
    assert(v@.take(v@.len() as int) =~= v@);
    string_of(&out)
}

fn char_from_ascii(code: u32) -> (c: char)
    requires
        65 <= code <= 90,
    ensures
        c == code as char,
{
    let b: u8 = code as u8;
    b as char
}

/// Where an agent's files go, for a checkout at `repo` and a user whose home
/// is `home`. An agent named `n` is wired from `agents/n` of the checkout,
/// keeps its files in `~/.n`, and reads the shared instructions as `N.md`
/// there, `N` being `n` in capitals.
pub struct AgentLayout {
    /// The agent's own directory, `~/.n`.
    pub agent_dir: String,
    /// Settings, hooks and the shared instructions.
    pub config_links: Vec<Link>,
    /// The checkout of the grill skills, `~/src/mattpocock-skills`.
    pub skills_src: String,
    /// The two grill skills, linked into `~/.n/skills`.
    pub skill_links: Vec<Link>,
}

/// The agent's own directory in the home directory.
pub open spec fn agent_dir_of(home: Seq<char>, agent: Seq<char>) -> Seq<char> {
    join_path(home, "."@ + agent)
}

/// The checkout of the grill skills.
pub open spec fn skills_src_of(home: Seq<char>) -> Seq<char> {
    join_path(home, "src/mattpocock-skills"@)
}

/// The links that wire the agent's configuration: `settings.json` and
/// `hooks/` of `agents/n`, and the shared `shared/AGENTS.md` under the name
/// the agent reads its instructions from.
pub open spec fn config_links_of(repo: Seq<char>, home: Seq<char>, agent: Seq<char>) -> Seq<
    (Seq<char>, Seq<char>),
> {
    let wiring = join_path(repo, "agents/"@ + agent);
    let dir = agent_dir_of(home, agent);
    seq![
        (join_path(wiring, "settings.json"@), join_path(dir, "settings.json"@)),
        (join_path(wiring, "hooks"@), join_path(dir, "hooks"@)),
        (join_path(repo, "shared/AGENTS.md"@), join_path(dir, upper(agent) + ".md"@)),
    ]
}

/// The links of the two grill skills.
pub open spec fn skill_links_of(home: Seq<char>, agent: Seq<char>) -> Seq<(Seq<char>, Seq<char>)> {
    let src = skills_src_of(home);
    let dir = agent_dir_of(home, agent);
    seq![
        (join_path(src, "skills/productivity/grill-me"@), join_path(dir, "skills/grill-me"@)),
        (
            join_path(src, "skills/engineering/grill-with-docs"@),
            join_path(dir, "skills/grill-with-docs"@),
        ),
    ]
}

fn make_link(target: String, at: String) -> (l: Link)
    ensures
        l.target@ == target@,
        l.at@ == at@,
{
    Link { target, at }
}

fn concat(a: &str, b: &str) -> (r: String)
    ensures
        r@ == a@ + b@,
{
    let mut r = string_of(&char_vec(a));
    r.append(b);
    r
}

/// The layout of the agent named `agent`, for a checkout at `repo` and a
/// home directory `home`.
pub fn agent_layout(repo: &str, home: &str, agent: &str) -> (l: AgentLayout)
    ensures
        l.agent_dir@ == agent_dir_of(home@, agent@),
        l.skills_src@ == skills_src_of(home@),
        l.config_links@.map_values(|k: Link| link_view(k)) == config_links_of(repo@, home@, agent@),
        l.skill_links@.map_values(|k: Link| link_view(k)) == skill_links_of(home@, agent@),
{
    let wiring = path_join(repo, concat("agents/", agent).as_str());
    let dir = path_join(home, concat(".", agent).as_str());
    let instructions = concat(ascii_upper(agent).as_str(), ".md");
    let mut config_links: Vec<Link> = Vec::new();
    config_links.push(
        make_link(path_join(wiring.as_str(), "settings.json"), path_join(dir.as_str(), "settings.json")),
    );
    config_links.push(make_link(path_join(wiring.as_str(), "hooks"), path_join(dir.as_str(), "hooks")));
    config_links.push(
        make_link(path_join(repo, "shared/AGENTS.md"), path_join(dir.as_str(), instructions.as_str())),
    );
    let skills_src = path_join(home, "src/mattpocock-skills");
    let mut skill_links: Vec<Link> = Vec::new();
    skill_links.push(
        make_link(
            path_join(skills_src.as_str(), "skills/productivity/grill-me"),
            path_join(dir.as_str(), "skills/grill-me"),
        ),
    );
    skill_links.push(
        make_link(
            path_join(skills_src.as_str(), "skills/engineering/grill-with-docs"),
            path_join(dir.as_str(), "skills/grill-with-docs"),
        ),
    );
    assert(config_links@.map_values(|k: Link| link_view(k)) =~= config_links_of(repo@, home@, agent@));
    assert(skill_links@.map_values(|k: Link| link_view(k)) =~= skill_links_of(home@, agent@));
    AgentLayout { agent_dir: dir, config_links, skills_src, skill_links }
}

/// What stands where a link is to be made.
pub enum Occupant {
    /// Nothing (or nothing that can be inspected).
    Vacant,
    /// A symlink.
    Symlink,
    /// A real file or directory.
    Entry,
}

/// What to do with it before the link is made.
pub enum Clearing {
    /// Nothing is in the way.
    Nothing,
    /// An old symlink is replaced: remove it.
    RemoveLink,
    /// A real file or directory is moved aside to a backup path first.
    BackUp,
}

/// Create `link_at` -> `target`: an existing symlink is replaced, an
/// existing real file or directory is backed up first.
pub fn clearing_for(occupant: Occupant) -> (c: Clearing)
    ensures
        occupant is Vacant <==> c is Nothing,
        occupant is Symlink <==> c is RemoveLink,
        occupant is Entry <==> c is BackUp,
{
    match occupant {
        Occupant::Vacant => Clearing::Nothing,
        Occupant::Symlink => Clearing::RemoveLink,
        Occupant::Entry => Clearing::BackUp,
    }
}

/// Where the setup of a tool that is installed with `cargo install` stands.
pub enum Setup {
    /// Waiting for the answer to: is the tool runnable?
    ProbingTool,
    /// Waiting for the answer to: is cargo runnable?
    ProbingCargo,
    /// Waiting for the outcome of `cargo install`.
    Installing,
    /// The tool was already present and has been reported so; its
    /// follow-up step comes next.
    Present,
    /// Nothing more to do.
    Done,
}

/// What the caller is to do next; its outcome (a yes/no) is the next event.
pub enum SetupAction {
    /// Check that the tool runs (`tool --version`).
    ProbeTool,
    /// Check that cargo runs.
    ProbeCargo,
    /// Run `cargo install` for the tool.
    Install,
    /// Report that the tool is already installed.
    ReportPresent,
    /// The tool is present (it was, or it has just been installed): run its
    /// follow-up step, if it has one (for the formatter, prefetching its
    /// grammar); done.
    FollowUp,
    /// Warn that `cargo install` failed; done.
    WarnInstallFailed,
    /// Warn that cargo is missing; done.
    WarnNoCargo,
    /// Nothing to do.
    Stop,
}

/// The first state and action of a tool setup.
pub open spec fn setup_begin() -> (Setup, SetupAction) {
    (Setup::ProbingTool, SetupAction::ProbeTool)
}

/// The next state and action of a tool setup, given the outcome `ok` of the
/// last action: a tool that runs is reported and left installed as it is; a
/// missing one is installed with cargo when cargo runs; whenever the tool is
/// present in the end, its follow-up step runs; each failure ends with its
/// own warning.
pub open spec fn setup_next(state: Setup, ok: bool) -> (Setup, SetupAction) {
    match state {
        Setup::ProbingTool => if ok {
            (Setup::Present, SetupAction::ReportPresent)
        } else {
            (Setup::ProbingCargo, SetupAction::ProbeCargo)
        },
        Setup::ProbingCargo => if ok {
            (Setup::Installing, SetupAction::Install)
        } else {
            (Setup::Done, SetupAction::WarnNoCargo)
        },
        Setup::Installing => if ok {
            (Setup::Done, SetupAction::FollowUp)
        } else {
            (Setup::Done, SetupAction::WarnInstallFailed)
        },
        Setup::Present => (Setup::Done, SetupAction::FollowUp),
        Setup::Done => (Setup::Done, SetupAction::Stop),
    }
}

/// The first state and action of a tool setup.
pub fn start_setup() -> (r: (Setup, SetupAction))
    ensures
        r == setup_begin(),
{
    (Setup::ProbingTool, SetupAction::ProbeTool)
}

/// The next state and action of a tool setup, given the outcome of the last action.
pub fn advance_setup(state: Setup, ok: bool) -> (r: (Setup, SetupAction))
    ensures
        r == setup_next(state, ok),
{
    match state {
        Setup::ProbingTool => if ok {
            (Setup::Present, SetupAction::ReportPresent)
        } else {
            (Setup::ProbingCargo, SetupAction::ProbeCargo)
        },
        Setup::ProbingCargo => if ok {
            (Setup::Installing, SetupAction::Install)
        } else {
            (Setup::Done, SetupAction::WarnNoCargo)
        },
        Setup::Installing => if ok {
            (Setup::Done, SetupAction::FollowUp)
        } else {
            (Setup::Done, SetupAction::WarnInstallFailed)
        },
        Setup::Present => (Setup::Done, SetupAction::FollowUp),
        Setup::Done => (Setup::Done, SetupAction::Stop),
    }
}

/// Steps left before a setup is done.
pub open spec fn setup_rank(state: Setup) -> nat {
    match state {
        Setup::ProbingTool => 3,
        Setup::ProbingCargo => 2,
        Setup::Installing => 1,
        Setup::Present => 1,
        Setup::Done => 0,
    }
}

/// The state reached from `state` through the outcomes `oks`.
pub open spec fn setup_run(state: Setup, oks: Seq<bool>) -> Setup
    decreases oks.len(),
{
    if oks.len() == 0 {
        state
    } else {
        setup_run(setup_next(state, oks[0]).0, oks.drop_first())
    }
}

/// The actions asked for from `state` on, given the outcomes `oks` of the
/// actions one by one, until the setup is done.
pub open spec fn setup_trace(state: Setup, oks: Seq<bool>) -> Seq<SetupAction>
    decreases oks.len(),
{
    if oks.len() == 0 || state is Done {
        Seq::empty()
    } else {
        let (next, action) = setup_next(state, oks[0]);
        seq![action] + setup_trace(next, oks.drop_first())
    }
}

/// Law: every step of an unfinished setup brings it closer to done, and a
/// done setup stays done with nothing to do; so whatever the outcomes, a
/// setup ends within three steps of its start.
pub proof fn law_setup_terminates(state: Setup, oks: Seq<bool>)
    ensures
        forall|ok: bool| !(state is Done) ==> #[trigger] setup_rank(setup_next(state, ok).0) < setup_rank(state),
        state is Done ==> forall|ok: bool| #[trigger] setup_next(state, ok) == (Setup::Done, SetupAction::Stop),
        oks.len() >= setup_rank(state) ==> setup_run(state, oks) is Done,
    decreases oks.len(),
{
    if oks.len() > 0 {
        law_setup_terminates(setup_next(state, oks[0]).0, oks.drop_first());
    }
}

/// Law: with `tool` the answer to whether the tool runs, `cargo` whether
/// cargo runs and `installed` whether `cargo install` succeeded, the setup
/// runs `cargo install` exactly when the tool is missing and cargo runs, and
/// runs the follow-up step exactly when the tool is present in the end:
/// when it was there already, or was just installed.
pub proof fn law_setup_actions(tool: bool, cargo: bool, installed: bool)
    ensures
        ({
            let trace = setup_trace(setup_begin().0, seq![tool, cargo, installed]);
            &&& trace.contains(SetupAction::Install) <==> !tool && cargo
            &&& trace.contains(SetupAction::FollowUp) <==> tool || (cargo && installed)
            &&& trace.contains(SetupAction::ReportPresent) <==> tool
        }),
{
    let oks = seq![tool, cargo, installed];
    let t0 = setup_trace(Setup::ProbingTool, oks);
    assert(oks.drop_first() =~= seq![cargo, installed]);
    assert(seq![cargo, installed].drop_first() =~= seq![installed]);
    assert(seq![installed].drop_first() =~= Seq::<bool>::empty());
    let e = Seq::<SetupAction>::empty();
    if tool {
        assert(setup_trace(Setup::Done, seq![installed]) == e);
        assert(setup_trace(Setup::Present, seq![cargo, installed]) =~= seq![SetupAction::FollowUp]);
        assert(t0 =~= seq![SetupAction::ReportPresent, SetupAction::FollowUp]);
        assert(t0[1] == SetupAction::FollowUp);
        assert(t0[0] == SetupAction::ReportPresent);
    } else if !cargo {
        assert(setup_trace(Setup::Done, seq![installed]) == e);
        assert(setup_trace(Setup::ProbingCargo, seq![cargo, installed]) =~= seq![SetupAction::WarnNoCargo]);
        assert(t0 =~= seq![SetupAction::ProbeCargo, SetupAction::WarnNoCargo]);
    } else {
        assert(setup_trace(Setup::Done, Seq::<bool>::empty()) == e);
        let last = if installed {
            SetupAction::FollowUp
        } else {
            SetupAction::WarnInstallFailed
        };
        assert(setup_trace(Setup::Installing, seq![installed]) =~= seq![last]);
        assert(setup_trace(Setup::ProbingCargo, seq![cargo, installed]) =~= seq![SetupAction::Install, last]);
        assert(t0 =~= seq![SetupAction::ProbeCargo, SetupAction::Install, last]);
        assert(t0[1] == SetupAction::Install);
        assert(t0[2] == last);
    }
}

/// Where fetching and linking the grill skills stands.
pub enum Skills {
    /// Waiting for the answer to: is the checkout there?
    CheckingCheckout,
    /// Waiting for `git pull` of the existing checkout.
    Pulling,
    /// Waiting for `git clone` of a new checkout.
    Cloning,
    /// The clone failed and has been warned about.
    CloneFailed,
    /// Waiting for the answer to: is the checkout there now?
    Rechecking,
    /// Nothing more to do.
    Finished,
}

/// What the caller is to do next; its outcome (a yes/no) is the next event.
pub enum SkillsAction {
    /// Check whether the skills checkout exists.
    ProbeCheckout,
    /// Update the existing checkout (`git pull --ff-only`).
    Pull,
    /// Create the checkout (`git clone`), its parent directory first.
    Clone,
    /// Warn that the clone failed and the skills will not be linked.
    WarnCloneFailed,
    /// Link the skills into the agent's directory; done.
    LinkSkills,
    /// Nothing to do.
    Stop,
}

/// The first state and action of the skills step.
pub open spec fn skills_begin() -> (Skills, SkillsAction) {
    (Skills::CheckingCheckout, SkillsAction::ProbeCheckout)
}

/// The next state and action of the skills step, given the outcome `ok` of
/// the last action: an existing checkout is pulled, a missing one cloned (a
/// failed clone is warned about), and the skills are linked when the
/// checkout is there afterwards.
pub open spec fn skills_next(state: Skills, ok: bool) -> (Skills, SkillsAction) {
    match state {
        Skills::CheckingCheckout => if ok {
            (Skills::Pulling, SkillsAction::Pull)
        } else {
            (Skills::Cloning, SkillsAction::Clone)
        },
        Skills::Pulling => (Skills::Rechecking, SkillsAction::ProbeCheckout),
        Skills::Cloning => if ok {
            (Skills::Rechecking, SkillsAction::ProbeCheckout)
        } else {
            (Skills::CloneFailed, SkillsAction::WarnCloneFailed)
        },
        Skills::CloneFailed => (Skills::Rechecking, SkillsAction::ProbeCheckout),
        Skills::Rechecking => if ok {
            (Skills::Finished, SkillsAction::LinkSkills)
        } else {
            (Skills::Finished, SkillsAction::Stop)
        },
        Skills::Finished => (Skills::Finished, SkillsAction::Stop),
    }
}

/// The first state and action of the skills step.
pub fn start_skills() -> (r: (Skills, SkillsAction))
    ensures
        r == skills_begin(),
{
    (Skills::CheckingCheckout, SkillsAction::ProbeCheckout)
}

/// The next state and action of the skills step, given the outcome of the
/// last action.
pub fn advance_skills(state: Skills, ok: bool) -> (r: (Skills, SkillsAction))
    ensures
        r == skills_next(state, ok),
{
    match state {
        Skills::CheckingCheckout => if ok {
            (Skills::Pulling, SkillsAction::Pull)
        } else {
            (Skills::Cloning, SkillsAction::Clone)
        },
        Skills::Pulling => (Skills::Rechecking, SkillsAction::ProbeCheckout),
        Skills::Cloning => if ok {
            (Skills::Rechecking, SkillsAction::ProbeCheckout)
        } else {
            (Skills::CloneFailed, SkillsAction::WarnCloneFailed)
        },
        Skills::CloneFailed => (Skills::Rechecking, SkillsAction::ProbeCheckout),
        Skills::Rechecking => if ok {
            (Skills::Finished, SkillsAction::LinkSkills)
        } else {
            (Skills::Finished, SkillsAction::Stop)
        },
        Skills::Finished => (Skills::Finished, SkillsAction::Stop),
    }
}

/// The actions asked for from `state` on, given the outcomes `oks`, until
/// the skills step is finished.
pub open spec fn skills_trace(state: Skills, oks: Seq<bool>) -> Seq<SkillsAction>
    decreases oks.len(),
{
    if oks.len() == 0 || state is Finished {
        Seq::empty()
    } else {
        let (next, action) = skills_next(state, oks[0]);
        seq![action] + skills_trace(next, oks.drop_first())
    }
}

/// The last action of the skills step, by whether the checkout is there
/// after fetching.
pub open spec fn skills_end(present: bool) -> SkillsAction {
    if present {
        SkillsAction::LinkSkills
    } else {
        SkillsAction::Stop
    }
}

/// Law: an existing checkout is pulled and a missing one cloned, a failed
/// clone is warned about, and the skills are linked exactly when the
/// checkout is there after fetching (`present`); the step then ends.
pub proof fn law_skills_actions(pulled: bool, present: bool)
    ensures
        skills_trace(skills_begin().0, seq![true, pulled, present, true]) == seq![
            SkillsAction::Pull,
            SkillsAction::ProbeCheckout,
            skills_end(present),
        ],
        skills_trace(skills_begin().0, seq![false, true, present, true]) == seq![
            SkillsAction::Clone,
            SkillsAction::ProbeCheckout,
            skills_end(present),
        ],
        skills_trace(skills_begin().0, seq![false, false, pulled, present]) == seq![
            SkillsAction::Clone,
            SkillsAction::WarnCloneFailed,
            SkillsAction::ProbeCheckout,
            skills_end(present),
        ],
{
    let e = Seq::<SkillsAction>::empty();
    let a = seq![true, pulled, present, true];
    assert(a.drop_first() =~= seq![pulled, present, true]);
    assert(seq![pulled, present, true].drop_first() =~= seq![present, true]);
    assert(seq![present, true].drop_first() =~= seq![true]);
    assert(skills_trace(Skills::Finished, seq![true]) == e);
    assert(skills_trace(Skills::Rechecking, seq![present, true]) =~= seq![skills_end(present)]);
    assert(skills_trace(Skills::Pulling, seq![pulled, present, true]) =~= seq![
        SkillsAction::ProbeCheckout,
        skills_end(present),
    ]);
    let b = seq![false, true, present, true];
    assert(b.drop_first() =~= seq![true, present, true]);
    assert(seq![true, present, true].drop_first() =~= seq![present, true]);
    assert(skills_trace(Skills::Cloning, seq![true, present, true]) =~= seq![
        SkillsAction::ProbeCheckout,
        skills_end(present),
    ]);
    let c = seq![false, false, pulled, present];
    assert(c.drop_first() =~= seq![false, pulled, present]);
    assert(seq![false, pulled, present].drop_first() =~= seq![pulled, present]);
    assert(seq![pulled, present].drop_first() =~= seq![present]);
    assert(seq![present].drop_first() =~= Seq::<bool>::empty());
    assert(skills_trace(Skills::Finished, Seq::<bool>::empty()) == e);
    assert(skills_trace(Skills::Rechecking, seq![present]) =~= seq![skills_end(present)]);
    assert(skills_trace(Skills::CloneFailed, seq![pulled, present]) =~= seq![
        SkillsAction::ProbeCheckout,
        skills_end(present),
    ]);
    assert(skills_trace(Skills::Cloning, seq![false, pulled, present]) =~= seq![
        SkillsAction::WarnCloneFailed,
        SkillsAction::ProbeCheckout,
        skills_end(present),
    ]);
}

} // verus!
