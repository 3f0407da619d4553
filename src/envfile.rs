use vstd::prelude::*;
use vstd::string::*;

use crate::env::{
    assign, keys_unique, lemma_lookup_assign, lookup, modified, Env, Position, Vars,
};
use crate::error::LaunchError;

verus! {

/// What a contribution file does to its variable, by the suffix of its name.
#[derive(Debug, Clone, Copy, PartialEq, Eq, Structural)]
pub enum EnvFileKind {
    /// `.prepend`: the value goes to the front of the path list.
    Prepend,
    /// `.append`: the value goes to the back of the path list.
    Append,
    /// `.override`: the value replaces the variable.
    Override,
    /// `.default`: the value is set only when the variable is unset.
    Default,
    /// Any other name: the value goes to the back of the path list.
    Plain,
}

/// One entry of an `env` or `env.launch` directory: its file name, and what it
/// holds when it is a regular file (`None` for anything else).
#[derive(Clone, Debug)]
pub struct EnvFile {
    pub name: String,
    pub contents: Option<String>,
}

pub open spec fn prepend_suffix() -> Seq<char> {
    seq!['.', 'p', 'r', 'e', 'p', 'e', 'n', 'd']
}

pub open spec fn append_suffix() -> Seq<char> {
    seq!['.', 'a', 'p', 'p', 'e', 'n', 'd']
}

pub open spec fn override_suffix() -> Seq<char> {
    seq!['.', 'o', 'v', 'e', 'r', 'r', 'i', 'd', 'e']
}

pub open spec fn default_suffix() -> Seq<char> {
    seq!['.', 'd', 'e', 'f', 'a', 'u', 'l', 't']
}

/// `name` ends in `suffix` with at least one character before it.
pub open spec fn has_suffix(name: Seq<char>, suffix: Seq<char>) -> bool {
    name.len() > suffix.len() && name.subrange(name.len() - suffix.len(), name.len() as int)
        == suffix
}

/// The kind of a contribution file, by its name.
pub open spec fn env_file_kind(name: Seq<char>) -> EnvFileKind {
    if has_suffix(name, prepend_suffix()) {
        EnvFileKind::Prepend
    } else if has_suffix(name, append_suffix()) {
        EnvFileKind::Append
    } else if has_suffix(name, override_suffix()) {
        EnvFileKind::Override
    } else if has_suffix(name, default_suffix()) {
        EnvFileKind::Default
    } else {
        EnvFileKind::Plain
    }
}

/// The variable a contribution file names: its name without a recognized suffix.
pub open spec fn env_var_name(name: Seq<char>) -> Seq<char> {
    let cut = match env_file_kind(name) {
        EnvFileKind::Prepend => prepend_suffix().len(),
        EnvFileKind::Append => append_suffix().len(),
        EnvFileKind::Override => override_suffix().len(),
        EnvFileKind::Default => default_suffix().len(),
        EnvFileKind::Plain => 0,
    };
    name.subrange(0, name.len() - cut)
}

/// The effect of one contribution file on the environment.
pub open spec fn apply_env_file(vars: Vars, f: EnvFile) -> Result<Vars, LaunchError> {
    match f.contents {
        None => Ok(vars),
        Some(value) => {
            let k = env_var_name(f.name@);
            match env_file_kind(f.name@) {
                EnvFileKind::Prepend => modified(vars, k, Position::Prefix, value@),
                EnvFileKind::Override => Ok(assign(vars, k, value@)),
                EnvFileKind::Default => if lookup(vars, k) is None {
                    Ok(assign(vars, k, value@))
                } else {
                    Ok(vars)
                },
                _ => modified(vars, k, Position::Suffix, value@),
            }
        },
    }
}

/// The effect of contribution files applied one after another; the first failure ends it.
pub open spec fn apply_env_files(vars: Vars, files: Seq<EnvFile>) -> Result<Vars, LaunchError>
    decreases files.len(),
{
    if files.len() == 0 {
        Ok(vars)
    } else {
        match apply_env_files(vars, files.drop_last()) {
            Ok(v) => apply_env_file(v, files.last()),
            Err(e) => Err(e),
        }
    }
}

fn strip_suffix(name: &str, suffix: &str) -> (r: Option<String>)
    ensures
        has_suffix(name@, suffix@) ==> r is Some && r->Some_0@ == name@.subrange(
            0,
            name@.len() - suffix@.len(),
        ),
        !has_suffix(name@, suffix@) ==> r is None,
{
    let n = name.unicode_len();
    let m = suffix.unicode_len();
    if n <= m {
        return None;
    }
    let start = n - m;
    let mut j: usize = 0;
    while j < m
        invariant
            n == name@.len(),
            m == suffix@.len(),
            start == n - m,
            j <= m,
            forall|q: int| 0 <= q < j ==> name@[start + q] == suffix@[q],
        decreases m - j,
    {
        if name.get_char(start + j) != suffix.get_char(j) {
            assert(name@.subrange(start as int, n as int)[j as int] != suffix@[j as int]);
            return None;
        }
        j = j + 1;
    }
    assert(name@.subrange(start as int, n as int) =~= suffix@);
    Some(String::from_str(name.substring_char(0, start)))
}

/// The variable a contribution file names, and what the file does to it.
pub fn split_env_file_name(name: &str) -> (r: (String, EnvFileKind))
    ensures
        r.0@ == env_var_name(name@),
        r.1 == env_file_kind(name@),
{
    proof {
        reveal_strlit(".prepend");
        reveal_strlit(".append");
        reveal_strlit(".override");
        reveal_strlit(".default");
    }
    assert(".prepend"@ =~= prepend_suffix());
    assert(".append"@ =~= append_suffix());
    assert(".override"@ =~= override_suffix());
    assert(".default"@ =~= default_suffix());
    if let Some(k) = strip_suffix(name, ".prepend") {
        return (k, EnvFileKind::Prepend);
    }
    if let Some(k) = strip_suffix(name, ".append") {
        return (k, EnvFileKind::Append);
    }
    if let Some(k) = strip_suffix(name, ".override") {
        return (k, EnvFileKind::Override);
    }
    if let Some(k) = strip_suffix(name, ".default") {
        return (k, EnvFileKind::Default);
    }
    assert(name@.subrange(0, name@.len() as int) =~= name@);
    (String::from_str(name), EnvFileKind::Plain)
}

/// Applies one contribution file to the environment. An entry that is not a regular
/// file changes nothing. On failure the environment is left as it was.
pub fn add_env_file(env: &mut Env, file: &EnvFile) -> (r: Result<(), LaunchError>)
    ensures
        match apply_env_file(old(env)@, *file) {
            Ok(vars) => r is Ok && final(env)@ == vars,
            Err(e) => r == Err::<(), LaunchError>(e) && final(env)@ == old(env)@,
        },
        keys_unique(old(env)@) ==> keys_unique(final(env)@),
{
    match &file.contents {
        None => Ok(()),
        Some(value) => {
            let (k, kind) = split_env_file_name(file.name.as_str());
            match kind {
                EnvFileKind::Prepend => env.modify_var(k.as_str(), Position::Prefix, value.as_str()),
                EnvFileKind::Override => {
                    env.set_var(k.as_str(), value.as_str());
                    Ok(())
                },
                EnvFileKind::Default => {
                    if env.var_os(k.as_str()).is_none() {
                        env.set_var(k.as_str(), value.as_str());
                    }
                    Ok(())
                },
                _ => env.modify_var(k.as_str(), Position::Suffix, value.as_str()),
            }
        },
    }
}

/// A `.default` file leaves a variable that is already set as it is; an `.override`
/// file always leaves its variable holding the file's contents.
pub proof fn default_keeps_override_replaces(vars: Vars, f: EnvFile)
    requires
        f.contents is Some,
    ensures
        env_file_kind(f.name@) == EnvFileKind::Default && lookup(vars, env_var_name(f.name@))
            is Some ==> apply_env_file(vars, f) == Ok::<Vars, LaunchError>(vars),
        env_file_kind(f.name@) == EnvFileKind::Override ==> apply_env_file(vars, f) is Ok
            && lookup(apply_env_file(vars, f)->Ok_0, env_var_name(f.name@)) == Some(
            f.contents->Some_0@,
        ),
{
    lemma_lookup_assign(vars, env_var_name(f.name@), f.contents->Some_0@);
}

} // verus!
