use vstd::prelude::*;
use vstd::string::*;

use crate::metadata::Process;

verus! {

/// The character sequences held by a list of strings.
pub open spec fn views(s: Seq<String>) -> Seq<Seq<char>> {
    s.map_values(|a: String| a@)
}

/// The pool with every process of type `t` taken out, the others in their order.
pub open spec fn without_type(pool: Seq<Process>, t: Seq<char>) -> Seq<Process>
    decreases pool.len(),
{
    if pool.len() == 0 {
        pool
    } else {
        let rest = without_type(pool.drop_last(), t);
        if pool.last().process_type@ == t {
            rest
        } else {
            rest.push(pool.last())
        }
    }
}

/// The last process of type `t` in the pool, if any.
pub open spec fn last_of_type(pool: Seq<Process>, t: Seq<char>) -> Option<Process>
    decreases pool.len(),
{
    if pool.len() == 0 {
        None
    } else if pool.last().process_type@ == t {
        Some(pool.last())
    } else {
        last_of_type(pool.drop_last(), t)
    }
}

/// `p` is a process made up from a command line: no type, the given command and
/// arguments, and the given mode.
pub open spec fn is_command_process(
    p: Process,
    command: Seq<char>,
    args: Seq<Seq<char>>,
    direct: bool,
) -> bool {
    &&& p.process_type@ == Seq::<char>::empty()
    &&& p.command@ == command
    &&& views(p.args@) == args
    &&& p.direct == direct
}

/// Takes every process of type `process_type` out of the pool and returns the last
/// of them.
pub fn find_process_by_type(processes: &mut Vec<Process>, process_type: &str) -> (r: Option<
    Process,
>)
    ensures
        r == last_of_type(old(processes)@, process_type@),
        final(processes)@ == without_type(old(processes)@, process_type@),
{
    let key = String::from_str(process_type);
    let ghost pool = processes@;
    let ghost t = process_type@;
    let ghost mut k: int = 0;
    let mut last: Option<Process> = None;
    let mut i: usize = 0;
    while i < processes.len()
        invariant
            key@ == t,
            0 <= k <= pool.len(),
            i == without_type(pool.subrange(0, k), t).len(),
            processes@ == without_type(pool.subrange(0, k), t) + pool.subrange(k, pool.len() as int),
            last == last_of_type(pool.subrange(0, k), t),
        decreases processes.len() - i,
    {
        let ghost before = processes@;
        let ghost pre = pool.subrange(0, k + 1);
        assert(pre.drop_last() =~= pool.subrange(0, k));
        assert(pre.last() == pool[k]);
        assert(processes@[i as int] == pool[k]);
        if processes[i].process_type == key {
            let p = processes.remove(i);
            last = Some(p);
            proof {
                k = k + 1;
            }
            assert(processes@ =~= without_type(pool.subrange(0, k), t) + pool.subrange(
                k,
                pool.len() as int,
            ));
        } else {
            i = i + 1;
            proof {
                k = k + 1;
            }
            assert(processes@ =~= without_type(pool.subrange(0, k), t) + pool.subrange(
                k,
                pool.len() as int,
            ));
        }
    }
    assert(pool.subrange(0, k) =~= pool);
    last
}

fn copy_from(argv: &[String], from: usize) -> (r: Vec<String>)
    requires
        from <= argv@.len(),
    ensures
        views(r@) == views(argv@).subrange(from as int, argv@.len() as int),
{
    let mut out: Vec<String> = Vec::new();
    let mut j: usize = from;
    while j < argv.len()
        invariant
            from <= j <= argv@.len(),
            views(out@) =~= views(argv@).subrange(from as int, j as int),
        decreases argv@.len() - j,
    {
        let a = argv[j].clone();
        assert(views(out@.push(a)) =~= views(out@).push(argv@[j as int]@));
        out.push(a);
        j = j + 1;
    }
    out
}

/// Chooses the process to run from command-line arguments, the default process type
/// and the pool of declared processes. No arguments: the default type is looked up.
/// One argument: it is looked up as a type. Otherwise, or when that lookup finds
/// nothing, the arguments are a command line; after a leading `--` it runs directly,
/// else through a shell. A lookup takes every process of that type out of the pool.
pub fn detect_process(argv: &[String], default_process_type: &str, processes: &mut Vec<Process>) -> (r:
    Option<Process>)
    ensures
        argv@.len() == 0 ==> r == last_of_type(old(processes)@, default_process_type@),
        argv@.len() == 0 ==> final(processes)@ == without_type(
            old(processes)@,
            default_process_type@,
        ),
        argv@.len() == 1 ==> final(processes)@ == without_type(old(processes)@, argv@[0]@),
        argv@.len() == 1 && last_of_type(old(processes)@, argv@[0]@) is Some ==> r
            == last_of_type(old(processes)@, argv@[0]@),
        argv@.len() == 1 && last_of_type(old(processes)@, argv@[0]@) is None ==> r is Some
            && is_command_process(r->Some_0, argv@[0]@, Seq::empty(), false),
        argv@.len() >= 2 ==> final(processes)@ == old(processes)@,
        argv@.len() >= 2 && argv@[0]@ == seq!['-', '-'] ==> r is Some && is_command_process(
            r->Some_0,
            argv@[1]@,
            views(argv@).subrange(2, argv@.len() as int),
            true,
        ),
        argv@.len() >= 2 && argv@[0]@ != seq!['-', '-'] ==> r is Some && is_command_process(
            r->Some_0,
            argv@[0]@,
            views(argv@).subrange(1, argv@.len() as int),
            false,
        ),
{
    if argv.len() == 0 {
        return find_process_by_type(processes, default_process_type);
    } else if argv.len() == 1 {
        let process = find_process_by_type(processes, argv[0].as_str());
        if process.is_some() {
            return process;
        }
    } else {
        proof {
            reveal_strlit("--");
        }
        let marker = String::from_str("--");
        assert(marker@ =~= seq!['-', '-']);
        if argv[0] == marker {
            return Some(
                Process {
                    process_type: String::new(),
                    command: argv[1].clone(),
                    args: copy_from(argv, 2),
                    direct: true,
                },
            );
        }
    }
    let args = copy_from(argv, 1);
    assert(argv@.len() == 1 ==> views(args@) =~= Seq::<Seq<char>>::empty());
    Some(Process { process_type: String::new(), command: argv[0].clone(), args, direct: false })
}

} // verus!
