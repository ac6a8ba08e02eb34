//! Classification of one invocation: run the application's own command in a
//! sandbox, or hand the invocation to the real runtime.
use vstd::prelude::*;
use crate::fsview::{FileId, FsView};
use crate::json::{json_string_field, json_u16_field, string_field, u16_field};
use crate::paths::{base_name, base_name_of, join_file, join_file_name, parent_dir, parent_of};
use crate::text::{
    has_prefix, holds_char, join_strs, join_with, lemma_split_join, lemma_split_on_fields,
    split_on, split_str, strip_prefix_str, views,
};

verus! {

/// The command that the host passes as the last argument.
#[derive(Debug, PartialEq, Eq, Clone)]
pub struct DenoArgs {
    pub command: String,
    pub entrypoint: String,
    pub port: u16,
}

/// The application's configuration file.
#[derive(Debug, PartialEq, Eq, Clone)]
pub struct SmallwebConfig {
    pub exec_command: String,
}

/// What to do with an invocation.
#[derive(Debug, PartialEq, Eq, Clone)]
pub enum Action {
    /// Run the configured command in a sandbox, for this command.
    Exec(SmallwebConfig, DenoArgs),
    /// Run the real runtime, with this search path where one is given.
    ExecDeno { new_path: Option<String> },
}

/// The meaning of an `Action`.
pub enum Decision {
    /// Run this configured command for the command (name, entrypoint, port).
    Run(Seq<char>, (Seq<char>, Seq<char>, u16)),
    /// Run the real runtime, with this search path where one is given.
    Delegate(Option<Seq<char>>),
}

impl DenoArgs {
    /// The command as (name, entrypoint, port).
    pub open spec fn model(self) -> (Seq<char>, Seq<char>, u16) {
        (self.command@, self.entrypoint@, self.port)
    }
}

impl Action {
    /// What the action means.
    pub open spec fn model(self) -> Decision {
        match self {
            Action::Exec(c, d) => Decision::Run(c.exec_command@, d.model()),
            Action::ExecDeno { new_path } => Decision::Delegate(
                match new_path {
                    Some(p) => Some(p@),
                    None => None,
                },
            ),
        }
    }
}

/// The command held by the JSON text `doc`: an object with a string
/// `command`, a string `entrypoint` and a `port` that fits in 16 bits.
pub open spec fn command_of(doc: Seq<char>) -> Option<(Seq<char>, Seq<char>, u16)> {
    match (
        json_string_field(doc, "command"@),
        json_string_field(doc, "entrypoint"@),
        json_u16_field(doc, "port"@),
    ) {
        (Some(c), Some(e), Some(p)) => Some((c, e, p)),
        _ => None,
    }
}

/// The `exec` command of the configuration text `text`.
pub open spec fn config_exec_of(text: Seq<char>) -> Option<Seq<char>> {
    json_string_field(text, "exec"@)
}

/// The filesystem path that a `file://` entrypoint names.
pub open spec fn entry_file(entrypoint: Seq<char>) -> Option<Seq<char>> {
    if has_prefix(entrypoint, "file://"@) {
        Some(entrypoint.skip("file://"@.len() as int))
    } else {
        None
    }
}

/// The application's directory: the entrypoint itself where it is a
/// directory, else the directory that holds it.
pub open spec fn app_dir(path: Seq<char>, fs: FsView) -> Option<Seq<char>> {
    if fs.is_dir(path) {
        Some(path)
    } else {
        parent_dir(path)
    }
}

/// Where the configuration file of the application at `entrypoint` lies.
pub open spec fn config_file(entrypoint: Seq<char>, fs: FsView) -> Option<Seq<char>> {
    match entry_file(entrypoint) {
        Some(p) => match app_dir(p, fs) {
            Some(d) => Some(join_file(d, "smallweb.json"@)),
            None => None,
        },
        None => None,
    }
}

/// The `exec` command of the application at `entrypoint`, where its
/// configuration file can be read and holds one.
pub open spec fn app_exec(entrypoint: Seq<char>, fs: FsView) -> Option<Seq<char>> {
    match config_file(entrypoint, fs) {
        Some(f) => match fs.text_of(f) {
            Some(t) => config_exec_of(t),
            None => None,
        },
        None => None,
    }
}

/// Whether the shim was invoked under the runtime's own name.
pub open spec fn shadowing(args: Seq<Seq<char>>) -> bool {
    args.len() > 0 && base_name(args[0]) == Some("deno"@)
}

/// Whether a search-path entry stays: it does unless it is the directory
/// whose identity is `own_dir`.
pub open spec fn keeps_entry(e: Seq<char>, own_dir: Option<FileId>, fs: FsView) -> bool {
    !(own_dir is Some && fs.id_of(e) == own_dir)
}

/// The entries of `es` that stay, in their order.
pub open spec fn kept_entries(es: Seq<Seq<char>>, own_dir: Option<FileId>, fs: FsView) -> Seq<
    Seq<char>,
>
    decreases es.len(),
{
    if es.len() == 0 {
        Seq::<Seq<char>>::empty()
    } else {
        let prev = kept_entries(es.drop_last(), own_dir, fs);
        if keeps_entry(es.last(), own_dir, fs) {
            prev.push(es.last())
        } else {
            prev
        }
    }
}

/// The search path `path_var` without the entries that are the directory
/// `own_dir`.
pub open spec fn sanitized(path_var: Seq<char>, own_dir: Option<FileId>, fs: FsView) -> Seq<char> {
    join_with(kept_entries(split_on(path_var, ':'), own_dir, fs), seq![':'])
}

/// The identity of the directory that holds the shim at `own_path`.
pub open spec fn self_dir_id(own_path: Seq<char>, fs: FsView) -> Option<FileId> {
    match parent_dir(own_path) {
        Some(d) => fs.id_of(d),
        None => None,
    }
}

/// The search path handed to the real runtime: corrected only where the shim
/// stands under the runtime's name.
pub open spec fn delegate_path(
    args: Seq<Seq<char>>,
    path_var: Seq<char>,
    own_path: Seq<char>,
    fs: FsView,
) -> Option<Seq<char>> {
    if shadowing(args) {
        Some(sanitized(path_var, self_dir_id(own_path, fs), fs))
    } else {
        None
    }
}

/// The configuration command and the command to run, where the last
/// argument is a command whose application has a readable configuration.
pub open spec fn app_to_run(args: Seq<Seq<char>>, fs: FsView) -> Option<
    (Seq<char>, (Seq<char>, Seq<char>, u16)),
> {
    if args.len() == 0 {
        None
    } else {
        match command_of(args.last()) {
            Some(cmd) => match app_exec(cmd.1, fs) {
                Some(exec) => Some((exec, cmd)),
                None => None,
            },
            None => None,
        }
    }
}

/// What is done with the invocation `args`: run the application where there
/// is one to run, else hand the invocation to the real runtime.
pub open spec fn decision(
    args: Seq<Seq<char>>,
    path_var: Seq<char>,
    own_path: Seq<char>,
    fs: FsView,
) -> Decision {
    match app_to_run(args, fs) {
        Some((exec, cmd)) => Decision::Run(exec, cmd),
        None => Decision::Delegate(delegate_path(args, path_var, own_path, fs)),
    }
}

/// Reads the command in the JSON text `doc`.
pub fn parse_deno_args(doc: &str) -> (r: Option<DenoArgs>)
    ensures
        match r {
            Some(d) => command_of(doc@) == Some(d.model()),
            None => command_of(doc@) is None,
        },
{
    let command = string_field(doc, "command");
    let entrypoint = string_field(doc, "entrypoint");
    let port = u16_field(doc, "port");
    match (command, entrypoint, port) {
        (Some(command), Some(entrypoint), Some(port)) => Some(DenoArgs { command, entrypoint, port }),
        _ => None,
    }
}

/// Reads the configuration in the JSON text `text`.
pub fn parse_config(text: &str) -> (r: Option<SmallwebConfig>)
    ensures
        match r {
            Some(c) => config_exec_of(text@) == Some(c.exec_command@),
            None => config_exec_of(text@) is None,
        },
{
    match string_field(text, "exec") {
        Some(exec_command) => Some(SmallwebConfig { exec_command }),
        None => None,
    }
}

/// Computes `entry_file(entrypoint)`.
pub fn entry_file_path(entrypoint: &str) -> (r: Option<String>)
    ensures
        match r {
            Some(p) => entry_file(entrypoint@) == Some(p@),
            None => entry_file(entrypoint@) is None,
        },
{
    strip_prefix_str(entrypoint, "file://")
}

/// Computes `config_file(entrypoint, fs)`.
pub fn config_file_path(entrypoint: &str, fs: &FsView) -> (r: Option<String>)
    ensures
        match r {
            Some(p) => config_file(entrypoint@, *fs) == Some(p@),
            None => config_file(entrypoint@, *fs) is None,
        },
{
    let path = match entry_file_path(entrypoint) {
        Some(p) => p,
        None => return None,
    };
    let dir = if fs.dir_at(&path) {
        path
    } else {
        match parent_of(path.as_str()) {
            Some(d) => d,
            None => return None,
        }
    };
    Some(join_file_name(dir.as_str(), "smallweb.json"))
}

/// The configuration and command to run, where the last argument names an
/// application whose configuration file can be read.
pub fn find_app(args: &Vec<String>, fs: &FsView) -> (r: Option<(SmallwebConfig, DenoArgs)>)
    ensures
        match r {
            Some((c, d)) => app_to_run(views(args@), *fs) == Some((c.exec_command@, d.model())),
            None => app_to_run(views(args@), *fs) is None,
        },
{
    if args.len() == 0 {
        return None;
    }
    let last = args[args.len() - 1].as_str();
    assert(views(args@).last() == last@);
    let deno_args = match parse_deno_args(last) {
        Some(d) => d,
        None => return None,
    };
    let config_path = match config_file_path(deno_args.entrypoint.as_str(), fs) {
        Some(p) => p,
        None => return None,
    };
    let text = match fs.text_at(&config_path) {
        Some(t) => t,
        None => return None,
    };
    match parse_config(text.as_str()) {
        Some(config) => Some((config, deno_args)),
        None => None,
    }
}

/// Whether the shim was invoked under the runtime's own name.
pub fn is_shadowing(args: &Vec<String>) -> (r: bool)
    ensures
        r == shadowing(views(args@)),
{
    if args.len() == 0 {
        return false;
    }
    match base_name_of(args[0].as_str()) {
        Some(b) => crate::text::same_text(b.as_str(), "deno"),
        None => false,
    }
}

/// The entries of `entries` that are not the directory `own_dir`, in order.
pub fn remove_self_entries(entries: &Vec<String>, own_dir: Option<FileId>, fs: &FsView) -> (r: Vec<
    String,
>)
    ensures
        views(r@) == kept_entries(views(entries@), own_dir, *fs),
{
    let mut kept: Vec<String> = Vec::new();
    let mut i: usize = 0;
    assert(views(entries@).take(0) =~= Seq::<Seq<char>>::empty());
    assert(views(kept@) =~= Seq::<Seq<char>>::empty());
    while i < entries.len()
        invariant
            i <= entries@.len(),
            views(kept@) == kept_entries(views(entries@).take(i as int), own_dir, *fs),
        decreases entries.len() - i,
    {
        let ghost before = views(kept@);
        assert(views(entries@).take(i + 1).drop_last() =~= views(entries@).take(i as int));
        assert(views(entries@).take(i + 1).last() == entries@[i as int]@);
        let stays = match own_dir {
            Some(own) => match fs.id_at(&entries[i]) {
                Some(id) => id != own,
                None => true,
            },
            None => true,
        };
        if stays {
            kept.push(entries[i].clone());
            assert(views(kept@) =~= before.push(entries@[i as int]@));
        }
        i = i + 1;
    }
    assert(views(entries@).take(entries@.len() as int) =~= views(entries@));
    kept
}

/// Computes `sanitized(path_var, own_dir, fs)`: the search path without the
/// entries that are the directory `own_dir`, by identity rather than by
/// spelling.
pub fn sanitize_path(path_var: &str, own_dir: Option<FileId>, fs: &FsView) -> (r: String)
    ensures
        r@ == sanitized(path_var@, own_dir, *fs),
        forall|e: Seq<char>|
            kept_entries(split_on(path_var@, ':'), own_dir, *fs).contains(e) ==> keeps_entry(
                e,
                own_dir,
                *fs,
            ),
{
    proof {
        lemma_kept_entries_keep(split_on(path_var@, ':'), own_dir, *fs);
        reveal_strlit(":");
        assert(":"@ =~= seq![':']);
    }
    let entries = split_str(path_var, ':');
    let kept = remove_self_entries(&entries, own_dir, fs);
    join_strs(&kept, ":")
}

/// Computes `delegate_path(args, path_var, own_path, fs)`.
pub fn delegate_new_path(args: &Vec<String>, path_var: &str, own_path: &str, fs: &FsView) -> (r:
    Option<String>)
    ensures
        match r {
            Some(p) => delegate_path(views(args@), path_var@, own_path@, *fs) == Some(p@),
            None => delegate_path(views(args@), path_var@, own_path@, *fs) is None,
        },
{
    if !is_shadowing(args) {
        return None;
    }
    let own_dir = match parent_of(own_path) {
        Some(d) => fs.id_at(&d),
        None => None,
    };
    Some(sanitize_path(path_var, own_dir, fs))
}

/// Decides what to do with the invocation `args`, given the search path, the
/// canonical path of the shim itself and what the filesystem shows.
pub fn decide_action(args: &Vec<String>, path_var: &str, own_path: &str, fs: &FsView) -> (r:
    Action)
    ensures
        r.model() == decision(views(args@), path_var@, own_path@, *fs),
{
    match find_app(args, fs) {
        Some((config, deno_args)) => Action::Exec(config, deno_args),
        None => Action::ExecDeno { new_path: delegate_new_path(args, path_var, own_path, fs) },
    }
}

/// The paths on which `decision` reads the filesystem: the directory that
/// holds the shim, each search-path entry, and for a `file://` entrypoint the
/// entrypoint and both places where its configuration file may lie.
pub open spec fn decision_probes(args: Seq<Seq<char>>, path_var: Seq<char>, own_path: Seq<char>) -> Seq<
    Seq<char>,
> {
    let own_dir = match parent_dir(own_path) {
        Some(d) => seq![d],
        None => Seq::<Seq<char>>::empty(),
    };
    own_dir + split_on(path_var, ':') + if args.len() == 0 {
        Seq::<Seq<char>>::empty()
    } else {
        match command_of(args.last()) {
            Some(cmd) => match entry_file(cmd.1) {
                Some(p) => seq![p, join_file(p, "smallweb.json"@)] + match parent_dir(p) {
                    Some(d) => seq![join_file(d, "smallweb.json"@)],
                    None => Seq::<Seq<char>>::empty(),
                },
                None => Seq::<Seq<char>>::empty(),
            },
            None => Seq::<Seq<char>>::empty(),
        }
    }
}

/// Computes `decision_probes(args, path_var, own_path)`: the paths whose
/// metadata and contents `decide_action` needs to see.
pub fn decision_probe_paths(args: &Vec<String>, path_var: &str, own_path: &str) -> (r: Vec<String>)
    ensures
        views(r@) == decision_probes(views(args@), path_var@, own_path@),
{
    let mut r: Vec<String> = Vec::new();
    if let Some(d) = parent_of(own_path) {
        r.push(d);
    }
    let ghost own_part = views(r@);
    let mut entries = split_str(path_var, ':');
    let ghost entry_views = views(entries@);
    r.append(&mut entries);
    assert(views(r@) =~= own_part + entry_views);
    let ghost head = views(r@);
    if args.len() > 0 {
        assert(views(args@).last() == args@[args@.len() - 1]@);
        if let Some(cmd) = parse_deno_args(args[args.len() - 1].as_str()) {
            if let Some(p) = entry_file_path(cmd.entrypoint.as_str()) {
                let beside = join_file_name(p.as_str(), "smallweb.json");
                let above = parent_of(p.as_str());
                r.push(p.clone());
                r.push(beside);
                if let Some(d) = above {
                    r.push(join_file_name(d.as_str(), "smallweb.json"));
                }
            }
        }
    }
    assert(views(r@) =~= decision_probes(views(args@), path_var@, own_path@));
    r
}

/// Every entry that `kept_entries` keeps passes `keeps_entry`.
pub proof fn lemma_kept_entries_keep(es: Seq<Seq<char>>, own_dir: Option<FileId>, fs: FsView)
    ensures
        forall|e: Seq<char>|
            kept_entries(es, own_dir, fs).contains(e) ==> keeps_entry(e, own_dir, fs),
    decreases es.len(),
{
    if es.len() > 0 {
        lemma_kept_entries_keep(es.drop_last(), own_dir, fs);
        let prev = kept_entries(es.drop_last(), own_dir, fs);
        if keeps_entry(es.last(), own_dir, fs) {
            assert forall|e: Seq<char>| prev.push(es.last()).contains(e) implies keeps_entry(
                e,
                own_dir,
                fs,
            ) by {
                let k = choose|k: int| 0 <= k < prev.push(es.last()).len() && prev.push(es.last())[k] == e;
                if k < prev.len() {
                    assert(prev.contains(e));
                }
            }
        }
    }
}

/// The entries that `kept_entries` keeps are entries of `es`.
pub proof fn lemma_kept_entries_from(es: Seq<Seq<char>>, own_dir: Option<FileId>, fs: FsView)
    ensures
        forall|e: Seq<char>| kept_entries(es, own_dir, fs).contains(e) ==> es.contains(e),
    decreases es.len(),
{
    if es.len() > 0 {
        lemma_kept_entries_from(es.drop_last(), own_dir, fs);
        let prev = kept_entries(es.drop_last(), own_dir, fs);
        assert forall|e: Seq<char>| kept_entries(es, own_dir, fs).contains(e) implies es.contains(
            e,
        ) by {
            let cur = kept_entries(es, own_dir, fs);
            let k = choose|k: int| 0 <= k < cur.len() && cur[k] == e;
            if k < prev.len() {
                assert(prev[k] == e);
                assert(prev.contains(e));
                assert(es.drop_last().contains(e));
                let j = choose|j: int| 0 <= j < es.drop_last().len() && es.drop_last()[j] == e;
                assert(es[j] == es.drop_last()[j]);
            } else {
                assert(es[es.len() - 1] == e);
            }
        }
    }
}

/// Where every entry stays, `kept_entries` keeps them all.
pub proof fn lemma_kept_entries_all(es: Seq<Seq<char>>, own_dir: Option<FileId>, fs: FsView)
    requires
        forall|k: int| 0 <= k < es.len() ==> keeps_entry(#[trigger] es[k], own_dir, fs),
    ensures
        kept_entries(es, own_dir, fs) == es,
    decreases es.len(),
{
    if es.len() > 0 {
        let front = es.drop_last();
        assert forall|k: int| 0 <= k < front.len() implies keeps_entry(
            #[trigger] front[k],
            own_dir,
            fs,
        ) by {
            assert(front[k] == es[k]);
        }
        lemma_kept_entries_all(front, own_dir, fs);
        assert(keeps_entry(es[es.len() - 1], own_dir, fs));
        assert(front.push(es.last()) =~= es);
    }
}

/// An invocation whose last argument is not a command of the expected shape
/// (or that has no argument at all) goes to the real runtime.
pub proof fn lemma_unparsed_delegates(
    args: Seq<Seq<char>>,
    path_var: Seq<char>,
    own_path: Seq<char>,
    fs: FsView,
)
    requires
        args.len() == 0 || command_of(args.last()) is None,
    ensures
        decision(args, path_var, own_path, fs) == Decision::Delegate(
            delegate_path(args, path_var, own_path, fs),
        ),
{
}

/// A command whose entrypoint is not a `file://` URL goes to the real
/// runtime, whatever the search path holds.
pub proof fn lemma_foreign_entrypoint_delegates(
    args: Seq<Seq<char>>,
    path_var: Seq<char>,
    own_path: Seq<char>,
    fs: FsView,
)
    requires
        args.len() > 0,
        command_of(args.last()) matches Some(cmd) && !has_prefix(cmd.1, "file://"@),
    ensures
        decision(args, path_var, own_path, fs) == Decision::Delegate(
            delegate_path(args, path_var, own_path, fs),
        ),
{
}

/// A command whose `file://` entrypoint is a directory holding a valid
/// configuration file runs that configuration's command, for that command.
pub proof fn lemma_configured_app_runs(
    args: Seq<Seq<char>>,
    path_var: Seq<char>,
    own_path: Seq<char>,
    fs: FsView,
    dir: Seq<char>,
    text: Seq<char>,
)
    requires
        args.len() > 0,
        command_of(args.last()) matches Some(cmd) && entry_file(cmd.1) == Some(dir),
        fs.is_dir(dir),
        fs.text_of(join_file(dir, "smallweb.json"@)) == Some(text),
        config_exec_of(text) is Some,
    ensures
        decision(args, path_var, own_path, fs) == Decision::Run(
            config_exec_of(text)->0,
            command_of(args.last())->0,
        ),
{
}

/// Correcting a search path a second time changes nothing.
pub proof fn lemma_sanitize_idempotent(path_var: Seq<char>, own_dir: Option<FileId>, fs: FsView)
    ensures
        sanitized(sanitized(path_var, own_dir, fs), own_dir, fs) == sanitized(
            path_var,
            own_dir,
            fs,
        ),
{
    let es = split_on(path_var, ':');
    let kept = kept_entries(es, own_dir, fs);
    let once = sanitized(path_var, own_dir, fs);
    lemma_kept_entries_keep(es, own_dir, fs);
    lemma_kept_entries_from(es, own_dir, fs);
    if kept.len() == 0 {
        assert(once == Seq::<char>::empty());
        let again = split_on(once, ':');
        assert(again =~= seq![Seq::<char>::empty()]);
        let kept2 = kept_entries(again, own_dir, fs);
        assert(kept_entries(again.drop_last(), own_dir, fs) == Seq::<Seq<char>>::empty());
        assert(kept2.len() <= 1);
        assert(join_with(kept2, seq![':']) == Seq::<char>::empty()) by {
            if kept2.len() == 1 {
                assert(kept2[0] == Seq::<char>::empty());
            }
        }
    } else {
        lemma_split_on_fields(path_var, ':');
        assert forall|k: int| 0 <= k < kept.len() implies !holds_char(#[trigger] kept[k], ':') by {
            assert(kept.contains(kept[k]));
            assert(es.contains(kept[k]));
        }
        lemma_split_join(kept, ':');
        assert forall|k: int| 0 <= k < kept.len() implies keeps_entry(
            #[trigger] kept[k],
            own_dir,
            fs,
        ) by {
            assert(kept.contains(kept[k]));
        }
        lemma_kept_entries_all(kept, own_dir, fs);
    }
}

/// An entry is dropped from the search path whenever it is the shim's own
/// directory by identity, however it is spelled (through a symbolic link,
/// with a trailing separator, relative or absolute).
pub proof fn lemma_alias_removed(
    path_var: Seq<char>,
    own_dir: FileId,
    fs: FsView,
    entry: Seq<char>,
)
    requires
        fs.id_of(entry) == Some(own_dir),
    ensures
        !kept_entries(split_on(path_var, ':'), Some(own_dir), fs).contains(entry),
{
    let kept = kept_entries(split_on(path_var, ':'), Some(own_dir), fs);
    lemma_kept_entries_keep(split_on(path_var, ':'), Some(own_dir), fs);
    if kept.contains(entry) {
        assert(keeps_entry(entry, Some(own_dir), fs));
    }
}

/// Two views that agree on the entries of `es` keep the same ones.
proof fn lemma_kept_entries_agree(es: Seq<Seq<char>>, own_dir: Option<FileId>, fs1: FsView, fs2: FsView)
    requires
        forall|k: int| 0 <= k < es.len() ==> fs1.lookup(#[trigger] es[k]) == fs2.lookup(es[k]),
    ensures
        kept_entries(es, own_dir, fs1) == kept_entries(es, own_dir, fs2),
    decreases es.len(),
{
    if es.len() > 0 {
        let front = es.drop_last();
        assert forall|k: int| 0 <= k < front.len() implies fs1.lookup(#[trigger] front[k])
            == fs2.lookup(front[k]) by {
            assert(front[k] == es[k]);
        }
        lemma_kept_entries_agree(front, own_dir, fs1, fs2);
        assert(fs1.lookup(es[es.len() - 1]) == fs2.lookup(es[es.len() - 1]));
    }
}

/// The decision reads the filesystem only on `decision_probes`: two views
/// that agree there give the same decision.
pub proof fn lemma_decision_reads_only_probes(
    args: Seq<Seq<char>>,
    path_var: Seq<char>,
    own_path: Seq<char>,
    fs1: FsView,
    fs2: FsView,
)
    requires
        forall|k: int|
            0 <= k < decision_probes(args, path_var, own_path).len() ==> fs1.lookup(
                #[trigger] decision_probes(args, path_var, own_path)[k],
            ) == fs2.lookup(decision_probes(args, path_var, own_path)[k]),
    ensures
        decision(args, path_var, own_path, fs1) == decision(args, path_var, own_path, fs2),
{
    let probes = decision_probes(args, path_var, own_path);
    let own_part = match parent_dir(own_path) {
        Some(d) => seq![d],
        None => Seq::<Seq<char>>::empty(),
    };
    let es = split_on(path_var, ':');
    if let Some(d) = parent_dir(own_path) {
        assert(probes[0] == d);
    }
    assert(self_dir_id(own_path, fs1) == self_dir_id(own_path, fs2));
    let own_dir = self_dir_id(own_path, fs1);
    assert forall|k: int| 0 <= k < es.len() implies fs1.lookup(#[trigger] es[k]) == fs2.lookup(
        es[k],
    ) by {
        assert(probes[own_part.len() + k] == es[k]);
    }
    lemma_kept_entries_agree(es, own_dir, fs1, fs2);
    assert(delegate_path(args, path_var, own_path, fs1) == delegate_path(
        args,
        path_var,
        own_path,
        fs2,
    ));
    if args.len() > 0 {
        if let Some(cmd) = command_of(args.last()) {
            if let Some(p) = entry_file(cmd.1) {
                let base = own_part.len() as int + es.len() as int;
                assert(probes[base] == p);
                assert(probes[base + 1] == join_file(p, "smallweb.json"@));
                if let Some(d) = parent_dir(p) {
                    assert(probes[base + 2] == join_file(d, "smallweb.json"@));
                }
                assert(fs1.is_dir(p) == fs2.is_dir(p));
                assert(config_file(cmd.1, fs1) == config_file(cmd.1, fs2));
                if let Some(f) = config_file(cmd.1, fs1) {
                    assert(fs1.lookup(f) == fs2.lookup(f));
                }
                assert(app_exec(cmd.1, fs1) == app_exec(cmd.1, fs2));
            }
        }
    }
}

} // verus!
