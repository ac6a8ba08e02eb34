//! The arguments of bubblewrap for running an application with the
//! capabilities that its runtime flags grant.
use vstd::prelude::*;
use crate::fsview::{FileId, FsView};
use crate::text::{has_prefix, same_text, split_on, split_str, strip_prefix_str, views};

verus! {

/// The flags that every sandbox gets.
pub open spec fn baseline() -> Seq<Seq<char>> {
    seq![
        "--die-with-parent"@,
        "--unshare-pid"@,
        "--new-session"@,
        "--proc"@,
        "/proc"@,
        "--dev"@,
        "/dev"@,
        "--symlink"@,
        "usr/lib64"@,
        "/lib64"@,
    ]
}

/// The system directories that every sandbox sees, read-only.
pub open spec fn system_dirs() -> Seq<Seq<char>> {
    seq!["/bin"@, "/usr"@, "/lib"@]
}

/// The name-resolution and certificate files that a sandbox with network
/// access sees, read-only.
pub open spec fn network_files() -> Seq<Seq<char>> {
    seq!["/etc/resolv.conf"@, "/etc/ssl"@]
}

/// Whether the runtime flags grant network access.
pub open spec fn allows_net(args: Seq<Seq<char>>) -> bool {
    args.contains("--allow-net"@)
}

/// The non-empty fields among `fields`, in order.
pub open spec fn nonempty_fields(fields: Seq<Seq<char>>) -> Seq<Seq<char>>
    decreases fields.len(),
{
    if fields.len() == 0 {
        Seq::<Seq<char>>::empty()
    } else {
        let prev = nonempty_fields(fields.drop_last());
        if fields.last().len() > 0 {
            prev.push(fields.last())
        } else {
            prev
        }
    }
}

/// The paths that the arguments of the form `<flag>p1,p2,...` grant, in the
/// order of the arguments and, within one, of the list.
pub open spec fn grant_paths(args: Seq<Seq<char>>, flag: Seq<char>) -> Seq<Seq<char>>
    decreases args.len(),
{
    if args.len() == 0 {
        Seq::<Seq<char>>::empty()
    } else {
        let prev = grant_paths(args.drop_last(), flag);
        let a = args.last();
        if has_prefix(a, flag) {
            prev + nonempty_fields(split_on(a.skip(flag.len() as int), ','))
        } else {
            prev
        }
    }
}

/// Whether `p` may be bound: it exists, and it is not the shim itself (whose
/// identity is `own`).
pub open spec fn should_bind(p: Seq<char>, own: Option<FileId>, fs: FsView) -> bool {
    fs.has_path(p) && !(own is Some && fs.id_of(p) == own)
}

/// The paths of `paths` that may be bound, in order.
pub open spec fn bindable(paths: Seq<Seq<char>>, own: Option<FileId>, fs: FsView) -> Seq<Seq<char>>
    decreases paths.len(),
{
    if paths.len() == 0 {
        Seq::<Seq<char>>::empty()
    } else {
        let prev = bindable(paths.drop_last(), own, fs);
        if should_bind(paths.last(), own, fs) {
            prev.push(paths.last())
        } else {
            prev
        }
    }
}

/// The bubblewrap flag for a bind, read-write or read-only.
pub open spec fn bind_flag(rw: bool) -> Seq<char> {
    if rw {
        "--bind"@
    } else {
        "--ro-bind"@
    }
}

/// One bind directive per path, each mounting the path at itself.
pub open spec fn render_binds(paths: Seq<Seq<char>>, rw: bool) -> Seq<Seq<char>>
    decreases paths.len(),
{
    if paths.len() == 0 {
        Seq::<Seq<char>>::empty()
    } else {
        render_binds(paths.drop_last(), rw) + seq![bind_flag(rw), paths.last(), paths.last()]
    }
}

/// The read-only mounts of a sandbox for the runtime flags `args`: system
/// directories, then network files where network access is granted, then
/// the read grants. Each list keeps only what may be bound.
pub open spec fn network_part(args: Seq<Seq<char>>, own: Option<FileId>, fs: FsView) -> Seq<
    Seq<char>,
> {
    if allows_net(args) {
        seq!["--share-net"@] + render_binds(bindable(network_files(), own, fs), false)
    } else {
        Seq::<Seq<char>>::empty()
    }
}

/// The arguments of bubblewrap for the runtime flags `args`, where the shim
/// itself lies at `own_path`.
pub open spec fn sandbox_args(args: Seq<Seq<char>>, own_path: Seq<char>, fs: FsView) -> Seq<
    Seq<char>,
> {
    let own = fs.id_of(own_path);
    baseline() + render_binds(bindable(system_dirs(), own, fs), false) + network_part(args, own, fs)
        + render_binds(bindable(grant_paths(args, "--allow-read="@), own, fs), false)
        + render_binds(bindable(grant_paths(args, "--allow-write="@), own, fs), true)
}

/// Every path that the sandbox binds, in order.
pub open spec fn bound_paths(args: Seq<Seq<char>>, own_path: Seq<char>, fs: FsView) -> Seq<
    Seq<char>,
> {
    let own = fs.id_of(own_path);
    bindable(system_dirs(), own, fs) + (if allows_net(args) {
        bindable(network_files(), own, fs)
    } else {
        Seq::<Seq<char>>::empty()
    }) + bindable(grant_paths(args, "--allow-read="@), own, fs) + bindable(
        grant_paths(args, "--allow-write="@),
        own,
        fs,
    )
}

/// The bind directive for `path`, where it may be bound.
pub fn bind_mount(path: &String, rw: bool, own: Option<FileId>, fs: &FsView) -> (r: Option<
    Vec<String>,
>)
    ensures
        match r {
            Some(d) => should_bind(path@, own, *fs) && views(d@) == seq![
                bind_flag(rw),
                path@,
                path@,
            ],
            None => !should_bind(path@, own, *fs),
        },
{
    let id = match fs.id_at(path) {
        Some(id) => id,
        None => return None,
    };
    if let Some(o) = own {
        if id == o {
            return None;
        }
    }
    let flag = if rw {
        String::from_str("--bind")
    } else {
        String::from_str("--ro-bind")
    };
    let d = vec![flag, path.clone(), path.clone()];
    assert(views(d@) =~= seq![bind_flag(rw), path@, path@]);
    Some(d)
}

/// Appends the bind directives for those of `paths` that may be bound.
pub fn push_binds(out: &mut Vec<String>, paths: &Vec<String>, rw: bool, own: Option<FileId>, fs: &FsView)
    ensures
        views(final(out)@) == views(old(out)@) + render_binds(bindable(views(paths@), own, *fs), rw),
{
    let ghost start = views(out@);
    let mut i: usize = 0;
    assert(views(paths@).take(0) =~= Seq::<Seq<char>>::empty());
    assert(start + render_binds(bindable(views(paths@).take(0), own, *fs), rw) =~= start);
    while i < paths.len()
        invariant
            i <= paths@.len(),
            views(out@) == start + render_binds(bindable(views(paths@).take(i as int), own, *fs), rw),
        decreases paths.len() - i,
    {
        let ghost pre = views(paths@).take(i as int);
        assert(views(paths@).take(i + 1).drop_last() =~= pre);
        assert(views(paths@).take(i + 1).last() == paths@[i as int]@);
        if let Some(d) = bind_mount(&paths[i], rw, own, fs) {
            let ghost mid = views(out@);
            assert(d@.len() == views(d@).len());
            assert(views(d@)[0] == d@[0]@ && views(d@)[1] == d@[1]@ && views(d@)[2] == d@[2]@);
            out.push(d[0].clone());
            out.push(d[1].clone());
            out.push(d[2].clone());
            assert(views(out@) =~= mid + views(d@));
            let ghost b = bindable(pre, own, *fs);
            assert(bindable(views(paths@).take(i + 1), own, *fs) == b.push(paths@[i as int]@));
            assert(b.push(paths@[i as int]@).drop_last() =~= b);
            assert(render_binds(b.push(paths@[i as int]@), rw) == render_binds(b, rw) + views(d@));
            assert(views(out@) =~= start + render_binds(bindable(views(paths@).take(i + 1), own, *fs), rw));
        }
        i = i + 1;
    }
    assert(views(paths@).take(paths@.len() as int) =~= views(paths@));
}

/// Computes `allows_net(args)`.
pub fn allows_net_of(args: &Vec<String>) -> (r: bool)
    ensures
        r == allows_net(views(args@)),
{
    let mut i: usize = 0;
    while i < args.len()
        invariant
            i <= args@.len(),
            forall|k: int| 0 <= k < i ==> views(args@)[k] != "--allow-net"@,
        decreases args.len() - i,
    {
        if same_text(args[i].as_str(), "--allow-net") {
            assert(views(args@)[i as int] == "--allow-net"@);
            return true;
        }
        i = i + 1;
    }
    false
}

/// Computes `grant_paths(args, flag)`.
pub fn grant_paths_of(args: &Vec<String>, flag: &str) -> (r: Vec<String>)
    ensures
        views(r@) == grant_paths(views(args@), flag@),
{
    let mut r: Vec<String> = Vec::new();
    let mut i: usize = 0;
    assert(views(args@).take(0) =~= Seq::<Seq<char>>::empty());
    assert(views(r@) =~= Seq::<Seq<char>>::empty());
    while i < args.len()
        invariant
            i <= args@.len(),
            views(r@) == grant_paths(views(args@).take(i as int), flag@),
        decreases args.len() - i,
    {
        let ghost pre = views(args@).take(i as int);
        assert(views(args@).take(i + 1).drop_last() =~= pre);
        assert(views(args@).take(i + 1).last() == args@[i as int]@);
        if let Some(rest) = strip_prefix_str(args[i].as_str(), flag) {
            let fields = split_str(rest.as_str(), ',');
            let ghost base = views(r@);
            let mut j: usize = 0;
            assert(views(fields@).take(0) =~= Seq::<Seq<char>>::empty());
            assert(base + nonempty_fields(views(fields@).take(0)) =~= base);
            while j < fields.len()
                invariant
                    j <= fields@.len(),
                    views(r@) == base + nonempty_fields(views(fields@).take(j as int)),
                decreases fields.len() - j,
            {
                let ghost fpre = views(fields@).take(j as int);
                assert(views(fields@).take(j + 1).drop_last() =~= fpre);
                assert(views(fields@).take(j + 1).last() == fields@[j as int]@);
                if fields[j].as_str().unicode_len() > 0 {
                    let ghost before = views(r@);
                    r.push(fields[j].clone());
                    assert(views(r@) =~= before.push(fields@[j as int]@));
                    assert(views(r@) =~= base + nonempty_fields(views(fields@).take(j + 1)));
                }
                j = j + 1;
            }
            assert(views(fields@).take(fields@.len() as int) =~= views(fields@));
        }
        i = i + 1;
    }
    assert(views(args@).take(args@.len() as int) =~= views(args@));
    r
}

/// The arguments of bubblewrap for an application run with the runtime flags
/// `args`, where the shim itself lies at `own_path` and `fs` shows the
/// filesystem: the fixed flags, then read-only binds of the system
/// directories, then network sharing with read-only binds of the name
/// resolution and certificate files where `--allow-net` is given, then
/// read-only binds of the `--allow-read=` paths and read-write binds of the
/// `--allow-write=` paths, each in the order given. Paths that do not exist,
/// or that are the shim itself, are left out.
pub fn deno_sandbox_to_bubblewrap_args(args: &Vec<String>, own_path: &String, fs: &FsView) -> (r:
    Vec<String>)
    ensures
        views(r@) == sandbox_args(views(args@), own_path@, *fs),
{
    let own = fs.id_at(own_path);
    let mut out: Vec<String> = vec![
        String::from_str("--die-with-parent"),
        String::from_str("--unshare-pid"),
        String::from_str("--new-session"),
        String::from_str("--proc"),
        String::from_str("/proc"),
        String::from_str("--dev"),
        String::from_str("/dev"),
        String::from_str("--symlink"),
        String::from_str("usr/lib64"),
        String::from_str("/lib64"),
    ];
    assert(views(out@) =~= baseline());
    let system = vec![String::from_str("/bin"), String::from_str("/usr"), String::from_str("/lib")];
    assert(views(system@) =~= system_dirs());
    push_binds(&mut out, &system, false, own, fs);
    let ghost after_system = views(out@);
    if allows_net_of(args) {
        out.push(String::from_str("--share-net"));
        let net = vec![String::from_str("/etc/resolv.conf"), String::from_str("/etc/ssl")];
        assert(views(net@) =~= network_files());
        push_binds(&mut out, &net, false, own, fs);
    }
    assert(views(out@) =~= after_system + network_part(views(args@), own, *fs));
    let reads = grant_paths_of(args, "--allow-read=");
    push_binds(&mut out, &reads, false, own, fs);
    let writes = grant_paths_of(args, "--allow-write=");
    push_binds(&mut out, &writes, true, own, fs);
    out
}

/// The paths on which `sandbox_args` reads the filesystem.
pub open spec fn sandbox_probes(args: Seq<Seq<char>>, own_path: Seq<char>) -> Seq<Seq<char>> {
    seq![own_path] + system_dirs() + network_files() + grant_paths(args, "--allow-read="@)
        + grant_paths(args, "--allow-write="@)
}

/// Computes `sandbox_probes(args, own_path)`: the paths whose metadata
/// `deno_sandbox_to_bubblewrap_args` needs to see.
pub fn sandbox_probe_paths(args: &Vec<String>, own_path: &String) -> (r: Vec<String>)
    ensures
        views(r@) == sandbox_probes(views(args@), own_path@),
{
    let mut r: Vec<String> = vec![
        own_path.clone(),
        String::from_str("/bin"),
        String::from_str("/usr"),
        String::from_str("/lib"),
        String::from_str("/etc/resolv.conf"),
        String::from_str("/etc/ssl"),
    ];
    let ghost fixed = views(r@);
    assert(fixed =~= seq![own_path@] + system_dirs() + network_files());
    let mut reads = grant_paths_of(args, "--allow-read=");
    let ghost read_views = views(reads@);
    r.append(&mut reads);
    assert(views(r@) =~= fixed + read_views);
    let ghost mid = views(r@);
    let mut writes = grant_paths_of(args, "--allow-write=");
    let ghost write_views = views(writes@);
    r.append(&mut writes);
    assert(views(r@) =~= mid + write_views);
    r
}

/// Every path of `paths` that `bindable` keeps may be bound.
pub proof fn lemma_bindable_sound(paths: Seq<Seq<char>>, own: Option<FileId>, fs: FsView)
    ensures
        forall|k: int|
            0 <= k < bindable(paths, own, fs).len() ==> should_bind(
                #[trigger] bindable(paths, own, fs)[k],
                own,
                fs,
            ),
    decreases paths.len(),
{
    if paths.len() > 0 {
        lemma_bindable_sound(paths.drop_last(), own, fs);
        let prev = bindable(paths.drop_last(), own, fs);
        let cur = bindable(paths, own, fs);
        assert forall|k: int| 0 <= k < cur.len() implies should_bind(#[trigger] cur[k], own, fs) by {
            if k < prev.len() {
                assert(cur[k] == prev[k]);
            }
        }
    }
}

/// The sandbox binds only paths that exist, and never the shim itself: no
/// bound path has the identity of `own_path`.
pub proof fn lemma_binds_exist_and_spare_self(
    args: Seq<Seq<char>>,
    own_path: Seq<char>,
    fs: FsView,
)
    ensures
        forall|k: int|
            0 <= k < bound_paths(args, own_path, fs).len() ==> {
                let p = #[trigger] bound_paths(args, own_path, fs)[k];
                &&& fs.has_path(p)
                &&& (fs.id_of(own_path) is Some ==> fs.id_of(p) != fs.id_of(own_path))
            },
{
    let own = fs.id_of(own_path);
    let a = bindable(system_dirs(), own, fs);
    let b = if allows_net(args) {
        bindable(network_files(), own, fs)
    } else {
        Seq::<Seq<char>>::empty()
    };
    let c = bindable(grant_paths(args, "--allow-read="@), own, fs);
    let d = bindable(grant_paths(args, "--allow-write="@), own, fs);
    lemma_bindable_sound(system_dirs(), own, fs);
    lemma_bindable_sound(network_files(), own, fs);
    lemma_bindable_sound(grant_paths(args, "--allow-read="@), own, fs);
    lemma_bindable_sound(grant_paths(args, "--allow-write="@), own, fs);
    let all = bound_paths(args, own_path, fs);
    assert(all == a + b + c + d);
    assert forall|k: int| 0 <= k < all.len() implies should_bind(#[trigger] all[k], own, fs) by {
        if k < a.len() {
            assert(all[k] == a[k]);
        } else if k < a.len() + b.len() {
            assert(all[k] == b[k - a.len()]);
        } else if k < a.len() + b.len() + c.len() {
            assert(all[k] == c[k - a.len() - b.len()]);
        } else {
            assert(all[k] == d[k - a.len() - b.len() - c.len()]);
        }
    }
}

/// Two views that agree on `paths` bind the same ones.
proof fn lemma_bindable_agree(paths: Seq<Seq<char>>, own: Option<FileId>, fs1: FsView, fs2: FsView)
    requires
        forall|k: int| 0 <= k < paths.len() ==> fs1.lookup(#[trigger] paths[k]) == fs2.lookup(
            paths[k],
        ),
    ensures
        bindable(paths, own, fs1) == bindable(paths, own, fs2),
    decreases paths.len(),
{
    if paths.len() > 0 {
        let front = paths.drop_last();
        assert forall|k: int| 0 <= k < front.len() implies fs1.lookup(#[trigger] front[k])
            == fs2.lookup(front[k]) by {
            assert(front[k] == paths[k]);
        }
        lemma_bindable_agree(front, own, fs1, fs2);
        assert(fs1.lookup(paths[paths.len() - 1]) == fs2.lookup(paths[paths.len() - 1]));
    }
}

/// The sandbox arguments read the filesystem only on `sandbox_probes`: two
/// views that agree there give the same arguments.
pub proof fn lemma_sandbox_reads_only_probes(
    args: Seq<Seq<char>>,
    own_path: Seq<char>,
    fs1: FsView,
    fs2: FsView,
)
    requires
        forall|k: int|
            0 <= k < sandbox_probes(args, own_path).len() ==> fs1.lookup(
                #[trigger] sandbox_probes(args, own_path)[k],
            ) == fs2.lookup(sandbox_probes(args, own_path)[k]),
    ensures
        sandbox_args(args, own_path, fs1) == sandbox_args(args, own_path, fs2),
{
    let probes = sandbox_probes(args, own_path);
    let reads = grant_paths(args, "--allow-read="@);
    let writes = grant_paths(args, "--allow-write="@);
    assert(probes[0] == own_path);
    let own = fs1.id_of(own_path);
    assert(own == fs2.id_of(own_path));
    assert forall|k: int| 0 <= k < system_dirs().len() implies fs1.lookup(
        #[trigger] system_dirs()[k],
    ) == fs2.lookup(system_dirs()[k]) by {
        assert(probes[1 + k] == system_dirs()[k]);
    }
    assert forall|k: int| 0 <= k < network_files().len() implies fs1.lookup(
        #[trigger] network_files()[k],
    ) == fs2.lookup(network_files()[k]) by {
        assert(probes[4 + k] == network_files()[k]);
    }
    assert forall|k: int| 0 <= k < reads.len() implies fs1.lookup(#[trigger] reads[k])
        == fs2.lookup(reads[k]) by {
        assert(probes[6 + k] == reads[k]);
    }
    assert forall|k: int| 0 <= k < writes.len() implies fs1.lookup(#[trigger] writes[k])
        == fs2.lookup(writes[k]) by {
        assert(probes[6 + reads.len() + k] == writes[k]);
    }
    lemma_bindable_agree(system_dirs(), own, fs1, fs2);
    lemma_bindable_agree(network_files(), own, fs1, fs2);
    lemma_bindable_agree(reads, own, fs1, fs2);
    lemma_bindable_agree(writes, own, fs1, fs2);
}

} // verus!
