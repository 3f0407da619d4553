use vstd::prelude::*;
use vstd::string::*;

use crate::env::{export_line, keys_unique, modified, Env, Position, Vars};
use crate::envfile::{add_env_file, apply_env_files, EnvFile};
use crate::error::LaunchError;
use crate::metadata::Buildpack;
use crate::order::{
    names_distinct, sort_by_name, sorted_by_name, sorted_by_name_ignores_listing_order,
    sorted_names_ignore_listing_order, Named,
};
use crate::select::views;
use crate::text::{join_path, path_join, path_safe};

verus! {

/// An entry of a `profile.d` directory: its file name, and whether it is a regular file.
#[derive(Clone, Debug)]
pub struct FileEntry {
    pub name: String,
    pub is_file: bool,
}

/// What was found in one layer directory. `has_bin` and `has_lib` say whether its
/// `bin` and `lib` directories exist; `env` and `env_launch` list the entries of
/// its `env` and `env.launch` directories in the order they were read (empty when
/// absent); `profile_d` lists the entries of its `profile.d` directory.
#[derive(Clone, Debug)]
pub struct Layer {
    pub name: String,
    pub has_bin: bool,
    pub has_lib: bool,
    pub env: Vec<EnvFile>,
    pub env_launch: Vec<EnvFile>,
    pub profile_d: Vec<FileEntry>,
}

impl Named for Layer {
    open spec fn sort_key(&self) -> Seq<char> {
        self.name@
    }

    fn name_str(&self) -> (r: &str) {
        self.name.as_str()
    }
}

/// What was found at a buildpack's layer root.
#[derive(Clone, Debug)]
pub enum LayerRoot {
    /// Nothing is there.
    Missing,
    /// It is the application directory itself.
    SameAsApp,
    /// A directory holding these layers, in the order they were read.
    Layers(Vec<Layer>),
}

/// What was found on disk for a launch: whether the application directory exists,
/// and the layer root of each buildpack, in buildpack order.
#[derive(Clone, Debug)]
pub struct LayersScan {
    pub app_dir_exists: bool,
    pub roots: Vec<LayerRoot>,
}

/// The result of a walk: the environment, and the profile scripts in order.
pub type Walked = (Vars, Seq<Seq<char>>);

pub open spec fn path_var() -> Seq<char> {
    seq!['P', 'A', 'T', 'H']
}

pub open spec fn library_path_var() -> Seq<char> {
    seq!['L', 'D', '_', 'L', 'I', 'B', 'R', 'A', 'R', 'Y', '_', 'P', 'A', 'T', 'H']
}

pub open spec fn bin_dir() -> Seq<char> {
    seq!['b', 'i', 'n']
}

pub open spec fn lib_dir() -> Seq<char> {
    seq!['l', 'i', 'b']
}

pub open spec fn profile_dir() -> Seq<char> {
    seq!['p', 'r', 'o', 'f', 'i', 'l', 'e', '.', 'd']
}

/// After `vars`, `dir` put at the front of path list `k` when `present`.
pub open spec fn add_dir(
    vars: Result<Vars, LaunchError>,
    present: bool,
    k: Seq<char>,
    dir: Seq<char>,
) -> Result<Vars, LaunchError> {
    match vars {
        Ok(v) => if present {
            modified(v, k, Position::Prefix, dir)
        } else {
            Ok(v)
        },
        Err(e) => Err(e),
    }
}

/// A layer's `bin` directory put in front of `PATH`, then its `lib` directory in
/// front of `LD_LIBRARY_PATH`.
pub open spec fn apply_root_dirs(vars: Vars, layer_path: Seq<char>, layer: Layer) -> Result<
    Vars,
    LaunchError,
> {
    add_dir(
        add_dir(Ok(vars), layer.has_bin, path_var(), path_join(layer_path, bin_dir())),
        layer.has_lib,
        library_path_var(),
        path_join(layer_path, lib_dir()),
    )
}

/// A layer's `env` files applied, then its `env.launch` files.
pub open spec fn apply_env_dirs(vars: Vars, layer: Layer) -> Result<Vars, LaunchError> {
    match apply_env_files(vars, layer.env@) {
        Ok(v) => apply_env_files(v, layer.env_launch@),
        Err(e) => Err(e),
    }
}

/// Everything one layer does to the environment.
pub open spec fn apply_layer(vars: Vars, layer_path: Seq<char>, layer: Layer) -> Result<
    Vars,
    LaunchError,
> {
    match apply_root_dirs(vars, layer_path, layer) {
        Ok(v) => apply_env_dirs(v, layer),
        Err(e) => Err(e),
    }
}

/// The names of the regular files among `entries`, in their order.
pub open spec fn regular_files(entries: Seq<FileEntry>) -> Seq<String>
    decreases entries.len(),
{
    if entries.len() == 0 {
        Seq::empty()
    } else {
        let rest = regular_files(entries.drop_last());
        if entries.last().is_file {
            rest.push(entries.last().name)
        } else {
            rest
        }
    }
}

/// The profile scripts of the layer at `layer_path`: the paths of the regular files
/// of its `profile.d` directory, in ascending order of file name.
pub open spec fn profile_scripts(layer_path: Seq<char>, entries: Seq<FileEntry>) -> Seq<
    Seq<char>,
> {
    sorted_by_name(regular_files(entries)).map_values(
        |n: String| path_join(path_join(layer_path, profile_dir()), n@),
    )
}

/// The layers of one buildpack walked in the given order from `vars`, each inside
/// `root`.
pub open spec fn walk_layers(vars: Vars, root: Seq<char>, layers: Seq<Layer>) -> Result<
    Walked,
    LaunchError,
>
    decreases layers.len(),
{
    if layers.len() == 0 {
        Ok((vars, Seq::empty()))
    } else {
        match walk_layers(vars, root, layers.drop_last()) {
            Ok((v, p)) => {
                let layer_path = path_join(root, layers.last().name@);
                match apply_layer(v, layer_path, layers.last()) {
                    Ok(v2) => Ok((v2, p + profile_scripts(layer_path, layers.last().profile_d@))),
                    Err(e) => Err(e),
                }
            },
            Err(e) => Err(e),
        }
    }
}

/// What was found for buildpack number `i`; nothing, if no root was recorded.
pub open spec fn root_at(roots: Seq<LayerRoot>, i: int) -> LayerRoot {
    if 0 <= i < roots.len() {
        roots[i]
    } else {
        LayerRoot::Missing
    }
}

/// The buildpacks walked in order from `vars`: a missing layer root fails, one that
/// is the application directory is passed over, and the layers of any other are
/// walked in ascending order of name.
pub open spec fn walk_buildpacks(
    vars: Vars,
    layers_dir: Seq<char>,
    bps: Seq<Buildpack>,
    roots: Seq<LayerRoot>,
) -> Result<Walked, LaunchError>
    decreases bps.len(),
{
    if bps.len() == 0 {
        Ok((vars, Seq::empty()))
    } else {
        match walk_buildpacks(vars, layers_dir, bps.drop_last(), roots) {
            Ok((v, p)) => match root_at(roots, bps.len() - 1) {
                LayerRoot::Missing => Err(LaunchError::NotFound),
                LayerRoot::SameAsApp => Ok((v, p)),
                LayerRoot::Layers(ls) => {
                    let root = path_join(layers_dir, path_safe(bps.last().id@));
                    match walk_layers(v, root, sorted_by_name(ls@)) {
                        Ok((v2, p2)) => Ok((v2, p + p2)),
                        Err(e) => Err(e),
                    }
                },
            },
            Err(e) => Err(e),
        }
    }
}

/// The whole walk: it fails when the application directory is missing.
pub open spec fn layers_walk(
    vars: Vars,
    layers_dir: Seq<char>,
    bps: Seq<Buildpack>,
    scan: LayersScan,
) -> Result<Walked, LaunchError> {
    if !scan.app_dir_exists {
        Err(LaunchError::NotFound)
    } else {
        walk_buildpacks(vars, layers_dir, bps, scan.roots@)
    }
}

proof fn lemma_files_err(vars: Vars, files: Seq<EnvFile>, k: int)
    requires
        0 <= k <= files.len(),
        apply_env_files(vars, files.subrange(0, k)) is Err,
    ensures
        apply_env_files(vars, files) == apply_env_files(vars, files.subrange(0, k)),
    decreases files.len(),
{
    if k == files.len() {
        assert(files.subrange(0, k) =~= files);
    } else {
        let pre = files.drop_last();
        assert(pre.subrange(0, k) =~= files.subrange(0, k));
        lemma_files_err(vars, pre, k);
    }
}

proof fn lemma_layers_err(vars: Vars, root: Seq<char>, layers: Seq<Layer>, k: int)
    requires
        0 <= k <= layers.len(),
        walk_layers(vars, root, layers.subrange(0, k)) is Err,
    ensures
        walk_layers(vars, root, layers) == walk_layers(vars, root, layers.subrange(0, k)),
    decreases layers.len(),
{
    if k == layers.len() {
        assert(layers.subrange(0, k) =~= layers);
    } else {
        let pre = layers.drop_last();
        assert(pre.subrange(0, k) =~= layers.subrange(0, k));
        lemma_layers_err(vars, root, pre, k);
    }
}

proof fn lemma_buildpacks_err(
    vars: Vars,
    layers_dir: Seq<char>,
    bps: Seq<Buildpack>,
    roots: Seq<LayerRoot>,
    k: int,
)
    requires
        0 <= k <= bps.len(),
        walk_buildpacks(vars, layers_dir, bps.subrange(0, k), roots) is Err,
    ensures
        walk_buildpacks(vars, layers_dir, bps, roots) == walk_buildpacks(
            vars,
            layers_dir,
            bps.subrange(0, k),
            roots,
        ),
    decreases bps.len(),
{
    if k == bps.len() {
        assert(bps.subrange(0, k) =~= bps);
    } else {
        let pre = bps.drop_last();
        assert(pre.subrange(0, k) =~= bps.subrange(0, k));
        lemma_buildpacks_err(vars, layers_dir, pre, roots, k);
    }
}

/// Puts the layer's `bin` directory in front of `PATH` and its `lib` directory in
/// front of `LD_LIBRARY_PATH`, each where it exists.
pub fn add_root_layer_dirs(env: &mut Env, layer_path: &str, layer: &Layer) -> (r: Result<
    (),
    LaunchError,
>)
    ensures
        match apply_root_dirs(old(env)@, layer_path@, *layer) {
            Ok(vars) => r is Ok && final(env)@ == vars,
            Err(e) => r == Err::<(), LaunchError>(e),
        },
        keys_unique(old(env)@) ==> keys_unique(final(env)@),
{
    proof {
        reveal_strlit("bin");
        reveal_strlit("lib");
        reveal_strlit("PATH");
        reveal_strlit("LD_LIBRARY_PATH");
    }
    assert("bin"@ =~= bin_dir());
    assert("lib"@ =~= lib_dir());
    assert("PATH"@ =~= path_var());
    assert("LD_LIBRARY_PATH"@ =~= library_path_var());
    if layer.has_bin {
        let dir = join_path(layer_path, "bin");
        let r = env.modify_var("PATH", Position::Prefix, dir.as_str());
        if r.is_err() {
            return r;
        }
    }
    if layer.has_lib {
        let dir = join_path(layer_path, "lib");
        let r = env.modify_var("LD_LIBRARY_PATH", Position::Prefix, dir.as_str());
        if r.is_err() {
            return r;
        }
    }
    Ok(())
}

fn add_env_files(env: &mut Env, files: &Vec<EnvFile>) -> (r: Result<(), LaunchError>)
    ensures
        match apply_env_files(old(env)@, files@) {
            Ok(vars) => r is Ok && final(env)@ == vars,
            Err(e) => r == Err::<(), LaunchError>(e),
        },
        keys_unique(old(env)@) ==> keys_unique(final(env)@),
{
    let ghost start = env@;
    let mut i: usize = 0;
    assert(files@.subrange(0, 0) =~= Seq::<EnvFile>::empty());
    while i < files.len()
        invariant
            i <= files@.len(),
            start == old(env)@,
            keys_unique(start) ==> keys_unique(env@),
            apply_env_files(start, files@.subrange(0, i as int)) == Ok::<Vars, LaunchError>(env@),
        decreases files@.len() - i,
    {
        let ghost pre = files@.subrange(0, i + 1);
        assert(pre.drop_last() =~= files@.subrange(0, i as int));
        assert(pre.last() == files@[i as int]);
        let r = add_env_file(env, &files[i]);
        if r.is_err() {
            proof {
                lemma_files_err(start, files@, i + 1);
            }
            return r;
        }
        i = i + 1;
    }
    assert(files@.subrange(0, i as int) =~= files@);
    Ok(())
}

/// Applies the files of the layer's `env` directory, then those of its `env.launch`
/// directory, each in the order they were read.
pub fn add_env_layer_dirs(env: &mut Env, layer: &Layer) -> (r: Result<(), LaunchError>)
    ensures
        match apply_env_dirs(old(env)@, *layer) {
            Ok(vars) => r is Ok && final(env)@ == vars,
            Err(e) => r == Err::<(), LaunchError>(e),
        },
        keys_unique(old(env)@) ==> keys_unique(final(env)@),
{
    let r = add_env_files(env, &layer.env);
    if r.is_err() {
        return r;
    }
    add_env_files(env, &layer.env_launch)
}

/// The paths of the regular files among the entries of the `profile.d` directory of
/// the layer at `layer_dir`, in ascending order of file name.
pub fn collect_layer_profile_d(layer_dir: &str, entries: &Vec<FileEntry>) -> (r: Vec<String>)
    ensures
        views(r@) == profile_scripts(layer_dir@, entries@),
{
    let mut names: Vec<String> = Vec::new();
    let mut i: usize = 0;
    while i < entries.len()
        invariant
            i <= entries@.len(),
            names@ == regular_files(entries@.subrange(0, i as int)),
        decreases entries@.len() - i,
    {
        let ghost pre = entries@.subrange(0, i + 1);
        assert(pre.drop_last() =~= entries@.subrange(0, i as int));
        if entries[i].is_file {
            names.push(entries[i].name.clone());
        }
        i = i + 1;
    }
    assert(entries@.subrange(0, i as int) =~= entries@);
    let sorted = sort_by_name(names);
    proof {
        reveal_strlit("profile.d");
    }
    assert("profile.d"@ =~= profile_dir());
    let dir = join_path(layer_dir, "profile.d");
    let mut out: Vec<String> = Vec::new();
    let mut j: usize = 0;
    while j < sorted.len()
        invariant
            j <= sorted@.len(),
            dir@ == path_join(layer_dir@, profile_dir()),
            views(out@) =~= sorted@.subrange(0, j as int).map_values(
                |n: String| path_join(dir@, n@),
            ),
        decreases sorted@.len() - j,
    {
        let p = join_path(dir.as_str(), sorted[j].as_str());
        let ghost before = out@;
        out.push(p);
        assert(views(out@) =~= views(before).push(p@));
        assert(sorted@.subrange(0, j + 1) =~= sorted@.subrange(0, j as int).push(sorted@[j as int]));
        j = j + 1;
    }
    assert(sorted@.subrange(0, j as int) =~= sorted@);
    out
}

/// Applies one layer inside `root` to `env` and returns its profile scripts.
fn add_layer(env: &mut Env, root: &str, layer: &Layer) -> (r: Result<Vec<String>, LaunchError>)
    ensures
        ({
            let layer_path = path_join(root@, layer.name@);
            match apply_layer(old(env)@, layer_path, *layer) {
                Ok(vars) => r is Ok && final(env)@ == vars && views(r->Ok_0@) == profile_scripts(
                    layer_path,
                    layer.profile_d@,
                ),
                Err(e) => r == Err::<Vec<String>, LaunchError>(e),
            }
        }),
        keys_unique(old(env)@) ==> keys_unique(final(env)@),
{
    let layer_path = join_path(root, layer.name.as_str());
    match add_root_layer_dirs(env, layer_path.as_str(), layer) {
        Err(e) => {
            return Err(e);
        },
        Ok(_) => {},
    }
    match add_env_layer_dirs(env, layer) {
        Err(e) => {
            return Err(e);
        },
        Ok(_) => {},
    }
    Ok(collect_layer_profile_d(layer_path.as_str(), &layer.profile_d))
}

/// Walks the layers of one buildpack, whose layer root is `root`, in ascending order
/// of name; returns their profile scripts in that order.
fn add_buildpack_layers(env: &mut Env, root: &str, layers: Vec<Layer>) -> (r: Result<
    Vec<String>,
    LaunchError,
>)
    ensures
        match walk_layers(old(env)@, root@, sorted_by_name(layers@)) {
            Ok((vars, scripts)) => r is Ok && final(env)@ == vars && views(r->Ok_0@) == scripts,
            Err(e) => r == Err::<Vec<String>, LaunchError>(e),
        },
        keys_unique(old(env)@) ==> keys_unique(final(env)@),
{
    let ghost v0 = env@;
    let sorted = sort_by_name(layers);
    let mut profile: Vec<String> = Vec::new();
    let mut i: usize = 0;
    assert(sorted@.subrange(0, 0) =~= Seq::<Layer>::empty());
    assert(views(profile@) =~= Seq::<Seq<char>>::empty());
    while i < sorted.len()
        invariant
            i <= sorted@.len(),
            v0 == old(env)@,
            keys_unique(v0) ==> keys_unique(env@),
            sorted@ == sorted_by_name(layers@),
            walk_layers(v0, root@, sorted@.subrange(0, i as int)) == Ok::<Walked, LaunchError>(
                (env@, views(profile@)),
            ),
        decreases sorted@.len() - i,
    {
        let ghost lp = sorted@.subrange(0, i + 1);
        assert(lp.drop_last() =~= sorted@.subrange(0, i as int));
        assert(lp.last() == sorted@[i as int]);
        match add_layer(env, root, &sorted[i]) {
            Err(e) => {
                assert(walk_layers(v0, root@, lp) == Err::<Walked, LaunchError>(e));
                proof {
                    lemma_layers_err(v0, root@, sorted@, i + 1);
                }
                return Err(e);
            },
            Ok(scripts) => {
                let mut scripts = scripts;
                let ghost before = profile@;
                let ghost added = views(scripts@);
                profile.append(&mut scripts);
                assert(views(profile@) =~= views(before) + added);
            },
        }
        i = i + 1;
    }
    assert(sorted@.subrange(0, i as int) =~= sorted@);
    Ok(profile)
}

/// Walks the layers of every buildpack, in buildpack order and within a buildpack in
/// ascending order of layer name, applying each layer's directories and contribution
/// files to `env`; returns the profile scripts of all layers in the order walked.
/// Fails when the application directory or a buildpack's layer root is missing,
/// and with the first failure of a change to the environment.
pub fn walk_layers_dir(
    env: &mut Env,
    layers_dir: &str,
    buildpacks: &Vec<Buildpack>,
    scan: LayersScan,
) -> (r: Result<Vec<String>, LaunchError>)
    ensures
        match layers_walk(old(env)@, layers_dir@, buildpacks@, scan) {
            Ok((vars, scripts)) => r is Ok && final(env)@ == vars && views(r->Ok_0@) == scripts,
            Err(e) => r == Err::<Vec<String>, LaunchError>(e),
        },
        keys_unique(old(env)@) ==> keys_unique(final(env)@),
{
    if !scan.app_dir_exists {
        return Err(LaunchError::NotFound);
    }
    let ghost orig = scan.roots@;
    let ghost start = env@;
    let ghost bps = buildpacks@;
    let mut roots = scan.roots;
    let mut profile: Vec<String> = Vec::new();
    let mut b: usize = 0;
    assert(bps.subrange(0, 0) =~= Seq::<Buildpack>::empty());
    assert(views(profile@) =~= Seq::<Seq<char>>::empty());
    while b < buildpacks.len()
        invariant
            b <= bps.len(),
            bps == buildpacks@,
            start == old(env)@,
            keys_unique(start) ==> keys_unique(env@),
            orig == scan.roots@,
            scan.app_dir_exists,
            roots@.len() == (if b < orig.len() { orig.len() - b } else { 0 }),
            forall|j: int| 0 <= j < roots@.len() ==> roots@[j] == orig[b + j],
            walk_buildpacks(start, layers_dir@, bps.subrange(0, b as int), orig) == Ok::<
                Walked,
                LaunchError,
            >((env@, views(profile@))),
        decreases bps.len() - b,
    {
        let ghost pre = bps.subrange(0, b + 1);
        assert(pre.drop_last() =~= bps.subrange(0, b as int));
        assert(pre.last() == bps[b as int]);
        let root = if roots.len() > 0 {
            roots.remove(0)
        } else {
            LayerRoot::Missing
        };
        assert(root == root_at(orig, b as int));
        match root {
            LayerRoot::Missing => {
                assert(walk_buildpacks(start, layers_dir@, pre, orig) is Err);
                proof {
                    lemma_buildpacks_err(start, layers_dir@, bps, orig, b + 1);
                }
                return Err(LaunchError::NotFound);
            },
            LayerRoot::SameAsApp => {},
            LayerRoot::Layers(ls) => {
                let id = buildpacks[b].path_id();
                let root_path = join_path(layers_dir, id.as_str());
                match add_buildpack_layers(env, root_path.as_str(), ls) {
                    Err(e) => {
                        assert(walk_buildpacks(start, layers_dir@, pre, orig) is Err);
                        proof {
                            lemma_buildpacks_err(start, layers_dir@, bps, orig, b + 1);
                        }
                        return Err(e);
                    },
                    Ok(scripts) => {
                        let mut scripts = scripts;
                        let ghost before = profile@;
                        let ghost added = views(scripts@);
                        profile.append(&mut scripts);
                        assert(views(profile@) =~= views(before) + added);
                    },
                }
            },
        }
        b = b + 1;
    }
    assert(bps.subrange(0, b as int) =~= bps);
    Ok(profile)
}

/// A buildpack whose layer root is the application directory itself changes neither
/// the environment nor the profile scripts.
pub proof fn same_as_app_contributes_nothing(
    vars: Vars,
    layers_dir: Seq<char>,
    bps: Seq<Buildpack>,
    bp: Buildpack,
    roots: Seq<LayerRoot>,
)
    requires
        root_at(roots, bps.len() as int) is SameAsApp,
    ensures
        walk_buildpacks(vars, layers_dir, bps.push(bp), roots) == walk_buildpacks(
            vars,
            layers_dir,
            bps,
            roots,
        ),
{
    assert(bps.push(bp).drop_last() =~= bps);
}

/// Two walks over the same layers, each from an empty environment, export the same
/// `NAME=VALUE` lines in the same order, and collect the same profile scripts.
pub proof fn walk_is_reproducible(
    first: Vars,
    second: Vars,
    layers_dir: Seq<char>,
    bps: Seq<Buildpack>,
    scan: LayersScan,
)
    requires
        first.len() == 0,
        second.len() == 0,
    ensures
        layers_walk(first, layers_dir, bps, scan) is Ok <==> layers_walk(
            second,
            layers_dir,
            bps,
            scan,
        ) is Ok,
        layers_walk(first, layers_dir, bps, scan) is Ok ==> ({
            let a = layers_walk(first, layers_dir, bps, scan)->Ok_0;
            let b = layers_walk(second, layers_dir, bps, scan)->Ok_0;
            &&& a.0.map_values(|e: (Seq<char>, Seq<char>)| export_line(e)) == b.0.map_values(
                |e: (Seq<char>, Seq<char>)| export_line(e),
            )
            &&& a.1 == b.1
        }),
{
    assert(first =~= second);
}

/// The profile scripts of a layer do not depend on the order in which its
/// `profile.d` directory was listed.
pub proof fn profile_scripts_ignore_listing_order(
    layer_path: Seq<char>,
    first: Seq<FileEntry>,
    second: Seq<FileEntry>,
)
    requires
        regular_files(first).to_multiset() == regular_files(second).to_multiset(),
    ensures
        profile_scripts(layer_path, first) == profile_scripts(layer_path, second),
{
    sorted_names_ignore_listing_order(regular_files(first), regular_files(second));
    let a = sorted_by_name(regular_files(first));
    let b = sorted_by_name(regular_files(second));
    assert forall|n: int| 0 <= n < a.len() implies a[n]@ == b[n]@ by {
        assert(a[n].sort_key() == b[n].sort_key());
    }
    assert(profile_scripts(layer_path, first) =~= profile_scripts(layer_path, second));
}

/// Two findings for one layer root that differ at most in the order in which the
/// layers were listed, the layers having distinct names.
pub open spec fn same_but_listing_order(a: LayerRoot, b: LayerRoot) -> bool {
    match (a, b) {
        (LayerRoot::Layers(x), LayerRoot::Layers(y)) => x@.to_multiset() == y@.to_multiset()
            && names_distinct(x@),
        _ => a == b,
    }
}

proof fn lemma_walk_buildpacks_listing_order(
    vars: Vars,
    layers_dir: Seq<char>,
    bps: Seq<Buildpack>,
    first: Seq<LayerRoot>,
    second: Seq<LayerRoot>,
)
    requires
        first.len() == second.len(),
        forall|i: int| 0 <= i < first.len() ==> same_but_listing_order(first[i], second[i]),
    ensures
        walk_buildpacks(vars, layers_dir, bps, first) == walk_buildpacks(
            vars,
            layers_dir,
            bps,
            second,
        ),
    decreases bps.len(),
{
    if bps.len() > 0 {
        lemma_walk_buildpacks_listing_order(vars, layers_dir, bps.drop_last(), first, second);
        let i = bps.len() - 1;
        if i < first.len() {
            match (first[i], second[i]) {
                (LayerRoot::Layers(x), LayerRoot::Layers(y)) => {
                    sorted_by_name_ignores_listing_order(x@, y@);
                },
                _ => {},
            }
        }
    }
}

/// The walk does not depend on the order in which each buildpack's layer root was
/// listed: sorting the layers by name makes the environment and the profile scripts
/// the same.
pub proof fn walk_ignores_layer_listing_order(
    vars: Vars,
    layers_dir: Seq<char>,
    bps: Seq<Buildpack>,
    first: LayersScan,
    second: LayersScan,
)
    requires
        first.app_dir_exists == second.app_dir_exists,
        first.roots@.len() == second.roots@.len(),
        forall|i: int|
            0 <= i < first.roots@.len() ==> same_but_listing_order(
                #[trigger] first.roots@[i],
                second.roots@[i],
            ),
    ensures
        layers_walk(vars, layers_dir, bps, first) == layers_walk(vars, layers_dir, bps, second),
{
    lemma_walk_buildpacks_listing_order(vars, layers_dir, bps, first.roots@, second.roots@);
}

} // verus!
