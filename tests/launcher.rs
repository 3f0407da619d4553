use launcher::{
    add_env_file, add_env_layer_dirs, add_root_layer_dirs, collect_layer_profile_d,
    detect_process, find_process_by_type, join_path, name_le, sort_by_name,
    split_env_file_name, walk_layers_dir, Buildpack, Env, EnvFile, EnvFileKind, FileEntry,
    LaunchError, Launcher, Layer, LayerRoot, LayersScan, Process,
};

fn file(name: &str, contents: &str) -> EnvFile {
    EnvFile { name: name.to_string(), contents: Some(contents.to_string()) }
}

fn script(name: &str) -> FileEntry {
    FileEntry { name: name.to_string(), is_file: true }
}

fn layer(name: &str) -> Layer {
    Layer {
        name: name.to_string(),
        has_bin: false,
        has_lib: false,
        env: Vec::new(),
        env_launch: Vec::new(),
        profile_d: Vec::new(),
    }
}

fn web_process() -> Process {
    Process {
        process_type: "web".to_string(),
        command: "bin/rails".to_string(),
        args: ["-p", "$PORT"].iter().map(|&s| s.to_string()).collect(),
        direct: false,
    }
}

fn worker_process() -> Process {
    Process {
        process_type: "worker".to_string(),
        command: "bundle exec sidekiq".to_string(),
        args: ["-c", "config/sidekiq.yml"].iter().map(|&s| s.to_string()).collect(),
        direct: false,
    }
}

#[test]
fn it_adds_dirs_to_env() {
    let mut env = Env::new();
    let tmpdir = "/tmp/launcher";
    let mut l = layer("launcher");
    l.has_bin = true;
    l.has_lib = true;

    assert!(add_root_layer_dirs(&mut env, tmpdir, &l).is_ok());
    assert_eq!(env.var_os("PATH").unwrap(), "/tmp/launcher/bin");
    assert_eq!(env.var_os("LD_LIBRARY_PATH").unwrap(), "/tmp/launcher/lib");
}

#[test]
fn it_adds_env_file_not_file() {
    let mut env = Env::new();
    let entry = EnvFile { name: "env".to_string(), contents: None };

    assert!(add_env_file(&mut env, &entry).is_ok());
    assert_eq!(env.len(), 0);
}

#[test]
fn it_adds_env_file_prepend() {
    let mut env = Env::new();
    env.set_var("TEST", "bar");

    assert!(add_env_file(&mut env, &file("TEST.prepend", "foo")).is_ok());
    assert_eq!(env.var_os("TEST").unwrap(), "foo:bar");
}

#[test]
fn it_adds_env_file_append() {
    let mut env = Env::new();
    env.set_var("TEST", "bar");

    assert!(add_env_file(&mut env, &file("TEST.append", "foo")).is_ok());
    assert_eq!(env.var_os("TEST").unwrap(), "bar:foo");
}

#[test]
fn it_adds_env_file_override() {
    let mut env = Env::new();
    env.set_var("TEST", "bar");

    assert!(add_env_file(&mut env, &file("TEST.override", "foo")).is_ok());
    assert_eq!(env.var_os("TEST").unwrap(), "foo");
}

#[test]
fn it_adds_env_file_default_does_not_set_if_exists() {
    let mut env = Env::new();
    env.set_var("TEST", "bar");

    assert!(add_env_file(&mut env, &file("TEST.default", "foo")).is_ok());
    assert_eq!(env.var_os("TEST").unwrap(), "bar");
}

#[test]
fn it_adds_env_file_default_sets_if_not_exists() {
    let mut env = Env::new();

    assert!(add_env_file(&mut env, &file("TEST.default", "foo")).is_ok());
    assert_eq!(env.var_os("TEST").unwrap(), "foo");
}

#[test]
fn env_file_with_unknown_suffix_appends_to_its_whole_name() {
    let mut env = Env::new();
    env.set_var("A.txt", "x");

    assert!(add_env_file(&mut env, &file("A.txt", "y")).is_ok());
    assert_eq!(env.var_os("A.txt").unwrap(), "x:y");
}

#[test]
fn env_file_without_suffix_appends() {
    let mut env = Env::new();
    env.set_var("PATH", "/bin");

    assert!(add_env_file(&mut env, &file("PATH", "/opt/bin")).is_ok());
    assert_eq!(env.var_os("PATH").unwrap(), "/bin:/opt/bin");
}

#[test]
fn env_file_prepend_with_separator_fails() {
    let mut env = Env::new();
    env.set_var("PATH", "/bin");

    assert_eq!(add_env_file(&mut env, &file("PATH.prepend", "/a:/b")), Err(LaunchError::Encoding));
}

#[test]
fn env_file_names_split_at_recognized_suffixes() {
    assert_eq!(split_env_file_name("JAVA_OPTS.prepend"), ("JAVA_OPTS".to_string(), EnvFileKind::Prepend));
    assert_eq!(split_env_file_name("a.b.append"), ("a.b".to_string(), EnvFileKind::Append));
    assert_eq!(split_env_file_name("X.override"), ("X".to_string(), EnvFileKind::Override));
    assert_eq!(split_env_file_name("X.default"), ("X".to_string(), EnvFileKind::Default));
    assert_eq!(split_env_file_name(".prepend"), (".prepend".to_string(), EnvFileKind::Plain));
    assert_eq!(split_env_file_name("FOO"), ("FOO".to_string(), EnvFileKind::Plain));
}

#[test]
fn env_then_env_launch_are_applied_in_order() {
    let mut env = Env::new();
    let mut l = layer("l");
    l.env = vec![file("FOO.override", "a"), file("FOO.append", "b")];
    l.env_launch = vec![file("FOO.prepend", "c")];

    assert!(add_env_layer_dirs(&mut env, &l).is_ok());
    assert_eq!(env.var_os("FOO").unwrap(), "c:a:b");
}

#[test]
fn it_builds_profile_d_list() {
    let entries = vec![
        script("foo"),
        script("bar"),
        FileEntry { name: "baz".to_string(), is_file: false },
    ];

    let profile_ds = collect_layer_profile_d("/tmp/launcher", &entries);
    assert_eq!(
        profile_ds,
        vec!["/tmp/launcher/profile.d/bar".to_string(), "/tmp/launcher/profile.d/foo".to_string()]
    );
}

#[test]
fn profile_d_order_does_not_depend_on_listing_order() {
    let a = collect_layer_profile_d("/l", &vec![script("bar"), script("foo")]);
    let b = collect_layer_profile_d("/l", &vec![script("foo"), script("bar")]);
    assert_eq!(a, b);
    assert_eq!(collect_layer_profile_d("/l", &Vec::new()), Vec::<String>::new());
}

#[test]
fn names_sort_by_code_point() {
    assert!(name_le("a", "b"));
    assert!(name_le("a", "ab"));
    assert!(!name_le("ab", "a"));
    assert!(name_le("B", "a"));
    assert!(name_le("", ""));
    let sorted = sort_by_name(vec!["b".to_string(), "a.sh".to_string(), "a".to_string()]);
    assert_eq!(sorted, vec!["a".to_string(), "a.sh".to_string(), "b".to_string()]);
}

#[test]
fn paths_join_with_one_separator() {
    assert_eq!(join_path("/layers", "x"), "/layers/x");
    assert_eq!(join_path("/layers/", "x"), "/layers/x");
    assert_eq!(join_path("", "x"), "x");
}

#[test]
fn it_finds_process_by_type() {
    let mut processes = Vec::new();
    let web = web_process();
    let worker = worker_process();
    processes.push(web.clone());
    processes.push(worker);

    assert_eq!(find_process_by_type(&mut processes, "web"), Some(web));
}

#[test]
fn finding_a_type_takes_all_of_it_and_returns_the_last() {
    let mut first = web_process();
    first.command = "first".to_string();
    let mut processes = vec![first, worker_process(), web_process()];

    assert_eq!(find_process_by_type(&mut processes, "web"), Some(web_process()));
    assert_eq!(processes, vec![worker_process()]);
    assert_eq!(find_process_by_type(&mut processes, "web"), None);
}

#[test]
fn it_detects_process_for_default() {
    let mut processes = Vec::new();
    let web = web_process();
    processes.push(web.clone());

    assert_eq!(detect_process(&[], "web", &mut processes), Some(web));
}

#[test]
fn it_detects_process_for_default_if_none() {
    let mut processes = Vec::new();

    assert_eq!(detect_process(&[], "web", &mut processes), None);
}

#[test]
fn it_detects_process_by_process_type_name() {
    let mut processes = Vec::new();
    let worker = worker_process();
    processes.push(worker.clone());

    assert_eq!(detect_process(&["worker".to_string()], "web", &mut processes), Some(worker));
}

#[test]
fn it_detects_process_as_process_command_if_no_process_type() {
    let mut processes = Vec::new();

    assert_eq!(
        detect_process(&["bash".to_string()], "web", &mut processes),
        Some(Process {
            process_type: "".to_string(),
            command: "bash".to_string(),
            args: Vec::new(),
            direct: false,
        })
    );
}

#[test]
fn it_detects_process_as_direct() {
    let mut processes = Vec::new();

    assert_eq!(
        detect_process(
            &["--", "bin/rails", "start"].iter().map(|&s| s.to_string()).collect::<Vec<String>>(),
            "web",
            &mut processes
        ),
        Some(Process {
            process_type: "".to_string(),
            command: "bin/rails".to_string(),
            args: ["start".to_string()].to_vec(),
            direct: true,
        })
    );
}

#[test]
fn it_detects_process_for_any_command() {
    let mut processes = Vec::new();

    assert_eq!(
        detect_process(
            &["bin/rails", "start"].iter().map(|&s| s.to_string()).collect::<Vec<String>>(),
            "web",
            &mut processes
        ),
        Some(Process {
            process_type: "".to_string(),
            command: "bin/rails".to_string(),
            args: ["start".to_string()].to_vec(),
            direct: false,
        })
    );
}

#[test]
fn two_arguments_never_look_up_the_pool() {
    let mut processes = vec![web_process()];
    let argv = vec!["web".to_string(), "x".to_string()];
    let p = detect_process(&argv, "web", &mut processes).unwrap();
    assert_eq!(p.command, "web");
    assert_eq!(p.args, vec!["x".to_string()]);
    assert_eq!(processes, vec![web_process()]);
}

fn ruby_scan() -> (Vec<Buildpack>, LayersScan) {
    let ruby_buildpack = Buildpack::new("heroku/ruby", "1.0.0");
    let procfile_buildpack = Buildpack::new("heroku/procfile", "1.0.0");

    let mut ruby = layer("ruby");
    ruby.has_bin = true;
    ruby.has_lib = true;
    ruby.env = vec![file("PATH", "vendor/ruby/bin")];
    ruby.env_launch = vec![file("FOO", "foo")];
    ruby.profile_d = vec![script("foo.sh"), script("bar.sh")];
    let mut gems = layer("gems");
    gems.profile_d = vec![script("baz.sh")];
    let mut tools = layer("tools");
    tools.has_bin = true;
    tools.has_lib = true;
    tools.profile_d = vec![script("far.sh")];

    let scan = LayersScan {
        app_dir_exists: true,
        roots: vec![LayerRoot::Layers(vec![ruby, gems]), LayerRoot::Layers(vec![tools])],
    };
    (vec![ruby_buildpack, procfile_buildpack], scan)
}

#[test]
fn it_walks_layers_dir() {
    let mut env = Env::new();
    let layers_dir = "/tmp/launcher/layers";
    let (buildpacks, scan) = ruby_scan();

    let result = walk_layers_dir(&mut env, layers_dir, &buildpacks, scan);
    assert!(result.is_ok());
    if let Ok(profile_d_scripts) = result {
        assert_eq!(
            profile_d_scripts,
            vec![
                "/tmp/launcher/layers/heroku_ruby/gems/profile.d/baz.sh".to_string(),
                "/tmp/launcher/layers/heroku_ruby/ruby/profile.d/bar.sh".to_string(),
                "/tmp/launcher/layers/heroku_ruby/ruby/profile.d/foo.sh".to_string(),
                "/tmp/launcher/layers/heroku_procfile/tools/profile.d/far.sh".to_string(),
            ]
        );
    }

    assert_eq!(
        env.var_os("PATH").unwrap(),
        "/tmp/launcher/layers/heroku_procfile/tools/bin:/tmp/launcher/layers/heroku_ruby/ruby/bin:vendor/ruby/bin"
    );
    assert_eq!(
        env.var_os("LD_LIBRARY_PATH").unwrap(),
        "/tmp/launcher/layers/heroku_procfile/tools/lib:/tmp/launcher/layers/heroku_ruby/ruby/lib"
    );
    assert_eq!(env.var_os("FOO").unwrap(), "foo");
}

#[test]
fn later_buildpack_bin_comes_first_in_path() {
    let mut env = Env::new();
    let mut a = layer("a");
    a.has_bin = true;
    let mut b = layer("b");
    b.has_bin = true;
    let scan = LayersScan {
        app_dir_exists: true,
        roots: vec![LayerRoot::Layers(vec![a]), LayerRoot::Layers(vec![b])],
    };
    let bps = vec![Buildpack::new("A", "1"), Buildpack::new("B", "1")];

    assert_eq!(walk_layers_dir(&mut env, "/layers", &bps, scan), Ok(Vec::new()));
    assert_eq!(env.var_os("PATH").unwrap(), "/layers/B/b/bin:/layers/A/a/bin");
}

#[test]
fn buildpack_aliasing_the_app_dir_contributes_nothing() {
    let mut env = Env::new();
    let bps = vec![Buildpack::new("app", "1")];
    let scan = LayersScan { app_dir_exists: true, roots: vec![LayerRoot::SameAsApp] };

    assert_eq!(walk_layers_dir(&mut env, "/layers", &bps, scan), Ok(Vec::new()));
    assert_eq!(env.len(), 0);
}

#[test]
fn walking_twice_exports_the_same_environment() {
    let (buildpacks, scan) = ruby_scan();
    let mut first = Env::new();
    let mut second = Env::new();
    let a = walk_layers_dir(&mut first, "/layers", &buildpacks, scan.clone());
    let b = walk_layers_dir(&mut second, "/layers", &buildpacks, scan);

    assert_eq!(a, b);
    assert_eq!(first.list().unwrap(), second.list().unwrap());
}

#[test]
fn missing_app_dir_or_layer_root_is_not_found() {
    let mut env = Env::new();
    let bps = vec![Buildpack::new("a", "1")];
    let scan = LayersScan { app_dir_exists: false, roots: vec![LayerRoot::Layers(Vec::new())] };
    assert_eq!(walk_layers_dir(&mut env, "/layers", &bps, scan), Err(LaunchError::NotFound));

    let scan = LayersScan { app_dir_exists: true, roots: vec![LayerRoot::Missing] };
    assert_eq!(walk_layers_dir(&mut env, "/layers", &bps, scan), Err(LaunchError::NotFound));

    let scan = LayersScan { app_dir_exists: true, roots: Vec::new() };
    assert_eq!(walk_layers_dir(&mut env, "/layers", &bps, scan), Err(LaunchError::NotFound));
}

#[test]
fn launch_plans_a_shell_with_profile_scripts() {
    let (buildpacks, scan) = ruby_scan();
    let mut launcher = Launcher::new("/workspace", "/layers", "web", buildpacks, Env::new());

    let plan = launcher.launch(vec![worker_process(), web_process()], scan).unwrap();
    assert_eq!(plan.dir, "/workspace");
    assert_eq!(plan.program, "/bin/bash");
    assert_eq!(
        plan.argv,
        vec![
            "bash", "-c",
            "/layers/heroku_ruby/gems/profile.d/baz.sh",
            "/layers/heroku_ruby/ruby/profile.d/bar.sh",
            "/layers/heroku_ruby/ruby/profile.d/foo.sh",
            "/layers/heroku_procfile/tools/profile.d/far.sh",
            "-p", "$PORT", "launcher", "bin/rails",
        ]
        .iter()
        .map(|s| s.to_string())
        .collect::<Vec<String>>()
    );
    assert!(plan.envp.contains(&"FOO=foo".to_string()));
    assert_eq!(plan.envp, launcher.env.list().unwrap());
}

#[test]
fn launch_plans_a_direct_exec() {
    let mut launcher = Launcher::new("/workspace", "/layers", "web", Vec::new(), Env::new());
    let mut web = web_process();
    web.direct = true;
    let scan = LayersScan { app_dir_exists: true, roots: Vec::new() };

    let plan = launcher.launch(vec![web], scan).unwrap();
    assert_eq!(plan.program, "bin/rails");
    assert_eq!(plan.argv, vec!["-p".to_string(), "$PORT".to_string()]);
    assert!(plan.envp.is_empty());
}

#[test]
fn launch_without_a_default_process_fails() {
    let mut launcher = Launcher::new("/workspace", "/layers", "web", Vec::new(), Env::new());
    let scan = LayersScan { app_dir_exists: true, roots: Vec::new() };

    assert_eq!(launcher.launch(vec![worker_process()], scan).unwrap_err(), LaunchError::ProcessNotFound);
}

#[test]
fn walk_ignores_the_order_layers_were_listed() {
    let (buildpacks, scan) = ruby_scan();
    let mut reversed = scan.clone();
    for root in reversed.roots.iter_mut() {
        if let LayerRoot::Layers(layers) = root {
            layers.reverse();
            for l in layers.iter_mut() {
                l.profile_d.reverse();
            }
        }
    }
    let mut first = Env::new();
    let mut second = Env::new();
    let a = walk_layers_dir(&mut first, "/layers", &buildpacks, scan);
    let b = walk_layers_dir(&mut second, "/layers", &buildpacks, reversed);

    assert!(a.is_ok());
    assert_eq!(a, b);
    assert_eq!(first.list().unwrap(), second.list().unwrap());
}
