use vstd::prelude::*;
use vstd::string::*;

use crate::env::{export_line, exportable, keys_unique, Env, Vars};
use crate::error::LaunchError;
use crate::layers::{layers_walk, walk_layers_dir, LayersScan};
use crate::metadata::{Buildpack, Process};
use crate::select::{detect_process, last_of_type, views};

verus! {

/// How to start the chosen process: from directory `dir`, execute `program` with
/// argument vector `argv` and environment `envp` (`NAME=VALUE` lines).
#[derive(Clone, Debug)]
pub struct ExecPlan {
    pub dir: String,
    pub program: String,
    pub argv: Vec<String>,
    pub envp: Vec<String>,
}

pub open spec fn shell_program() -> Seq<char> {
    seq!['/', 'b', 'i', 'n', '/', 'b', 'a', 's', 'h']
}

/// The argument vector of the shell that runs `p`: `bash -c`, the profile scripts,
/// the process's arguments, the marker `launcher`, then the command.
pub open spec fn shell_argv(p: Process, scripts: Seq<Seq<char>>) -> Seq<Seq<char>> {
    seq![seq!['b', 'a', 's', 'h'], seq!['-', 'c']] + scripts + views(p.args@) + seq![
        seq!['l', 'a', 'u', 'n', 'c', 'h', 'e', 'r'],
        p.command@,
    ]
}

/// `plan` starts `p` from `app_dir` with the environment `vars`: directly when `p`
/// asks for it, else through the shell with the profile scripts.
pub open spec fn plans(
    plan: ExecPlan,
    app_dir: Seq<char>,
    p: Process,
    scripts: Seq<Seq<char>>,
    vars: Vars,
) -> bool {
    &&& plan.dir@ == app_dir
    &&& views(plan.envp@) == vars.map_values(|e: (Seq<char>, Seq<char>)| export_line(e))
    &&& if p.direct {
        plan.program@ == p.command@ && views(plan.argv@) == views(p.args@)
    } else {
        plan.program@ == shell_program() && views(plan.argv@) == shell_argv(p, scripts)
    }
}

/// Everything a launch needs: where the application and the layers are, the
/// buildpacks in order, the process type to run, and the environment to extend.
pub struct Launcher {
    pub app_dir: String,
    pub layers_dir: String,
    pub buildpacks: Vec<Buildpack>,
    pub default_process_type: String,
    pub env: Env,
}

fn push_str(v: &mut Vec<String>, s: &str)
    ensures
        views(final(v)@) == views(old(v)@).push(s@),
{
    let ghost before = v@;
    v.push(String::from_str(s));
    assert(views(v@) =~= views(before).push(s@));
}

impl Launcher {
    pub fn new(
        app_dir: &str,
        layers_dir: &str,
        default_process_type: &str,
        buildpacks: Vec<Buildpack>,
        env: Env,
    ) -> (r: Launcher)
        ensures
            r.app_dir@ == app_dir@,
            r.layers_dir@ == layers_dir@,
            r.default_process_type@ == default_process_type@,
            r.buildpacks@ == buildpacks@,
            r.env@ == env@,
    {
        Launcher {
            app_dir: String::from_str(app_dir),
            layers_dir: String::from_str(layers_dir),
            buildpacks,
            default_process_type: String::from_str(default_process_type),
            env,
        }
    }

    /// Walks the layers into the environment, takes the last process of the default
    /// type out of `processes`, and says how to execute it. Fails as the walk fails,
    /// when no process has the default type, or when the environment cannot be
    /// handed to a process.
    pub fn launch(&mut self, processes: Vec<Process>, scan: LayersScan) -> (r: Result<
        ExecPlan,
        LaunchError,
    >)
        ensures
            final(self).app_dir == old(self).app_dir,
            final(self).layers_dir == old(self).layers_dir,
            final(self).buildpacks == old(self).buildpacks,
            final(self).default_process_type == old(self).default_process_type,
            keys_unique(old(self).env@) ==> keys_unique(final(self).env@),
            match layers_walk(old(self).env@, old(self).layers_dir@, old(self).buildpacks@, scan) {
                Err(e) => r == Err::<ExecPlan, LaunchError>(e),
                Ok((vars, scripts)) => final(self).env@ == vars && match last_of_type(
                    processes@,
                    old(self).default_process_type@,
                ) {
                    None => r == Err::<ExecPlan, LaunchError>(LaunchError::ProcessNotFound),
                    Some(p) => if exportable(vars) {
                        r is Ok && plans(r->Ok_0, old(self).app_dir@, p, scripts, vars)
                    } else {
                        r == Err::<ExecPlan, LaunchError>(LaunchError::Encoding)
                    },
                },
            },
    {
        let profile_d = match walk_layers_dir(
            &mut self.env,
            self.layers_dir.as_str(),
            &self.buildpacks,
            scan,
        ) {
            Ok(p) => p,
            Err(e) => {
                return Err(e);
            },
        };
        let mut processes = processes;
        let argv: Vec<String> = Vec::new();
        let process = match detect_process(
            argv.as_slice(),
            self.default_process_type.as_str(),
            &mut processes,
        ) {
            Some(p) => p,
            None => {
                return Err(LaunchError::ProcessNotFound);
            },
        };
        let envp = match self.env.list() {
            Ok(l) => l,
            Err(e) => {
                return Err(e);
            },
        };
        let dir = self.app_dir.clone();
        let ghost p = process;
        if process.direct {
            let mut args: Vec<String> = Vec::new();
            let mut source = process.args;
            args.append(&mut source);
            return Ok(ExecPlan { dir, program: process.command, argv: args, envp });
        }
        proof {
            reveal_strlit("/bin/bash");
            reveal_strlit("bash");
            reveal_strlit("-c");
            reveal_strlit("launcher");
        }
        assert("/bin/bash"@ =~= shell_program());
        assert("bash"@ =~= seq!['b', 'a', 's', 'h']);
        assert("-c"@ =~= seq!['-', 'c']);
        assert("launcher"@ =~= seq!['l', 'a', 'u', 'n', 'c', 'h', 'e', 'r']);
        let mut args: Vec<String> = Vec::new();
        push_str(&mut args, "bash");
        push_str(&mut args, "-c");
        let mut scripts = profile_d;
        let ghost b1 = args@;
        let ghost s1 = scripts@;
        args.append(&mut scripts);
        assert(views(args@) =~= views(b1) + views(s1));
        let mut own_args = process.args;
        let ghost b2 = args@;
        let ghost a2 = own_args@;
        args.append(&mut own_args);
        assert(views(args@) =~= views(b2) + views(a2));
        push_str(&mut args, "launcher");
        let ghost b3 = args@;
        let command = process.command;
        let ghost c = command@;
        args.push(command);
        assert(views(args@) =~= views(b3).push(c));
        assert(views(args@) =~= shell_argv(p, views(s1)));
        Ok(ExecPlan { dir, program: String::from_str("/bin/bash"), argv: args, envp })
    }
}

} // verus!
