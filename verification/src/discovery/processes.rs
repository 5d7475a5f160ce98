//! Running processes.
use vstd::prelude::*;
use vstd::string::*;

use crate::seqs::{kept, lemma_kept_step};
use crate::text::{
    concat, decimal, decimal_of, join_from, joined, lines, lines_of, parse_u32, parsed,
    split_whitespace, strs, trim, trimmed, words,
};

verus! {

/// A discovered running process.
pub struct Process {
    pub pid: u32,
    pub user: String,
    pub cpu: String,
    pub mem: String,
    pub command: String,
}

/// What a process is.
pub struct ProcessView {
    pub pid: u32,
    pub user: Seq<char>,
    pub cpu: Seq<char>,
    pub mem: Seq<char>,
    pub command: Seq<char>,
}

impl View for Process {
    type V = ProcessView;

    open spec fn view(&self) -> ProcessView {
        ProcessView {
            pid: self.pid,
            user: self.user@,
            cpu: self.cpu@,
            mem: self.mem@,
            command: self.command@,
        }
    }
}

/// What the processes of a list are.
pub open spec fn process_views(v: Seq<Process>) -> Seq<ProcessView> {
    v.map_values(|p: Process| p@)
}

/// The process in a line of `ps aux`: user, process id, cpu and memory first,
/// then six columns that are not kept, then the command with its arguments.
pub open spec fn ps_row(line: Seq<char>) -> Option<ProcessView> {
    let cols = words(trimmed(line));
    if cols.len() < 11 {
        None
    } else {
        let command = joined(cols.skip(10), " "@);
        match parsed(cols[1], 10, u32::MAX as nat) {
            Some(pid) => if command.len() == 0 {
                None
            } else {
                Some(
                    ProcessView {
                        pid: pid as u32,
                        user: cols[0],
                        cpu: cols[2],
                        mem: cols[3],
                        command,
                    },
                )
            },
            None => None,
        }
    }
}

/// The processes in the output of `ps aux`, whose first line is a heading.
pub open spec fn ps_rows(output: Seq<char>) -> Seq<ProcessView> {
    let all = lines(output);
    if all.len() == 0 {
        seq![]
    } else {
        kept(all.skip(1), |line: Seq<char>| ps_row(line))
    }
}

pub fn parse_ps_aux_line(line: &str) -> (r: Option<Process>)
    ensures
        match r {
            Some(p) => ps_row(line@) == Some(p@),
            None => ps_row(line@) is None,
        },
{
    let cols = split_whitespace(trim(line));
    assert(strs(cols@).len() == cols@.len());
    if cols.len() < 11 {
        return None;
    }
    assert(forall|i: int| 0 <= i < cols@.len() ==> strs(cols@)[i] == #[trigger] cols@[i]@);
    let pid = match parse_u32(cols[1]) {
        Some(pid) => pid,
        None => {
            return None;
        },
    };
    let command = join_from(&cols, 10, " ");
    if command.as_str().is_empty() {
        return None;
    }
    Some(
        Process {
            pid,
            user: cols[0].to_owned(),
            cpu: cols[2].to_owned(),
            mem: cols[3].to_owned(),
            command,
        },
    )
}

/// The processes in the output of `ps aux`.
pub fn parse_ps_aux(output: &str) -> (r: Vec<Process>)
    ensures
        process_views(r@) == ps_rows(output@),
{
    let all = lines_of(output);
    let mut out: Vec<Process> = Vec::new();
    let ghost texts = strs(all@);
    assert(texts.len() == all@.len());
    if all.len() == 0 {
        assert(process_views(out@) =~= seq![]);
        return out;
    }
    let ghost rows = texts.skip(1);
    let ghost f = |line: Seq<char>| ps_row(line);
    let mut i: usize = 1;
    assert(process_views(out@) =~= kept(rows.take(0), f));
    while i < all.len()
        invariant
            1 <= i <= all@.len(),
            texts == strs(all@),
            rows == texts.skip(1),
            f == (|line: Seq<char>| ps_row(line)),
            process_views(out@) == kept(rows.take(i - 1), f),
        decreases all.len() - i,
    {
        proof {
            lemma_kept_step(rows, f, i - 1);
            assert(rows[i - 1] == all@[i as int]@);
        }
        let ghost before = process_views(out@);
        match parse_ps_aux_line(all[i]) {
            Some(p) => {
                out.push(p);
                assert(process_views(out@) =~= before.push(p@));
            },
            None => {},
        }
        i = i + 1;
    }
    assert(rows.take(i - 1) =~= rows);
    out
}

/// The command of a process: its arguments, or the kernel's name for it in
/// brackets where it has none.
pub open spec fn command_line(args: Seq<Seq<char>>, comm: Seq<char>) -> Seq<char> {
    if args.len() > 0 {
        joined(args, " "@)
    } else {
        "["@ + comm + "]"@
    }
}

/// A process as read from the kernel. `mem` is its resident set in megabytes;
/// there is no measure of its cpu use at one moment.
pub fn native_process(pid: u32, uid: u32, args: &Vec<&str>, comm: &str, mem: String) -> (r: Process)
    ensures
        r@.pid == pid,
        r@.user == decimal(uid as nat),
        r@.cpu == "0.0"@,
        r@.mem == mem@,
        r@.command == command_line(strs(args@), comm@),
{
    let command = if args.len() > 0 {
        assert(strs(args@).skip(0) =~= strs(args@));
        join_from(args, 0, " ")
    } else {
        let open = concat("[", comm);
        concat(open.as_str(), "]")
    };
    Process { pid, user: decimal_of(uid as u64), cpu: "0.0".to_owned(), mem, command }
}

} // verus!
