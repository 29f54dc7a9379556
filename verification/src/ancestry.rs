use vstd::prelude::*;
use crate::decimal::{
    decimal_digits, is_digit, lemma_decimal_digits, lemma_render_then_parse, parse_u32,
    parse_u32_spec, render_u32,
};
use crate::error::ResolveError;
use crate::fields::{
    append_bytes, field, field_end, field_start, find_field_end, find_last, last_index_of,
    lemma_field_end, lemma_field_end_is, lemma_last_index_is, nth_field, SPACE,
};
use vstd::slice::slice_subrange;

verus! {

/// The most process-state lookups that one ancestry walk makes. A real
/// process tree is far shallower; the bound keeps a walk over corrupted
/// state from running forever.
pub const MAX_ANCESTRY_DEPTH: usize = 65536;

/// ASCII `(`, which opens the command name in a process-state line.
pub const OPEN_PAREN: u8 = 40;

/// ASCII `)`, which closes the command name in a process-state line.
pub const CLOSE_PAREN: u8 = 41;

/// Which field of the text after the command name holds the parent's
/// process id. That text starts with a space, so its first field is empty
/// and its second is the process's state.
pub const PARENT_FIELD: usize = 2;

/// What follows the command name in a process-state line. The command
/// name stands in parentheses and may itself hold spaces and parentheses:
/// it reaches from the first `(` to the last `)` of the line. A line
/// without the two, in this order, is malformed.
pub open spec fn after_command_name(stat: Seq<u8>) -> Option<Seq<u8>> {
    match last_index_of(stat, CLOSE_PAREN) {
        Some(close) => if field_end(stat, OPEN_PAREN, 0) < close {
            Some(stat.subrange(close + 1, stat.len() as int))
        } else {
            None
        },
        None => None,
    }
}

/// The parent named by a process-state line: the second space-separated
/// field after the command name, read as a decimal number. A parent id of
/// 0 means that the process has no parent. A line without a command name,
/// with fewer fields, or whose parent field is no number, is malformed.
pub open spec fn parent_in_stat(stat: Seq<u8>) -> Result<Option<u32>, ResolveError> {
    match after_command_name(stat) {
        Some(rest) => match field(rest, SPACE, PARENT_FIELD as nat) {
            Some(f) => match parse_u32_spec(f) {
                Some(ppid) => if ppid == 0 {
                    Ok(None)
                } else {
                    Ok(Some(ppid))
                },
                None => Err(ResolveError::EnvironmentRead),
            },
            None => Err(ResolveError::EnvironmentRead),
        },
        None => Err(ResolveError::EnvironmentRead),
    }
}

/// The start of a process-state line: the process id as text, a space,
/// and the command name in parentheses.
pub open spec fn stat_head(pid_text: Seq<u8>, name: Seq<u8>) -> Seq<u8> {
    pid_text + seq![SPACE, OPEN_PAREN] + name + seq![CLOSE_PAREN]
}

/// The rest of a process-state line: a space, the state, a space, the
/// parent's process id in decimal, a space, and whatever follows.
pub open spec fn stat_rest(state: Seq<u8>, ppid: u32, tail: Seq<u8>) -> Seq<u8> {
    seq![SPACE] + state + seq![SPACE] + decimal_digits(ppid as nat) + seq![SPACE] + tail
}

/// A process-state line in the form in which the system writes it.
pub open spec fn stat_line(
    pid_text: Seq<u8>,
    name: Seq<u8>,
    state: Seq<u8>,
    ppid: u32,
    tail: Seq<u8>,
) -> Seq<u8> {
    stat_head(pid_text, name) + stat_rest(state, ppid, tail)
}

/// The parent is read rightly out of every line that the system writes,
/// whatever the command name holds: spaces, parentheses, or nothing. Only
/// the state must be free of spaces, and what follows the command name
/// free of `)`.
pub proof fn lemma_parent_in_stat_line(
    pid_text: Seq<u8>,
    name: Seq<u8>,
    state: Seq<u8>,
    ppid: u32,
    tail: Seq<u8>,
)
    requires
        forall|i: int| 0 <= i < state.len() ==> state[i] != SPACE && state[i] != CLOSE_PAREN,
        forall|i: int| 0 <= i < tail.len() ==> tail[i] != CLOSE_PAREN,
    ensures
        parent_in_stat(stat_line(pid_text, name, state, ppid, tail)) == Ok::<
            Option<u32>,
            ResolveError,
        >(if ppid == 0 {
            None
        } else {
            Some(ppid)
        }),
{
    let head = stat_head(pid_text, name);
    let rest = stat_rest(state, ppid, tail);
    let line = stat_line(pid_text, name, state, ppid, tail);
    let digits = decimal_digits(ppid as nat);
    let open = pid_text.len() as int + 1;
    let close = head.len() as int - 1;
    let s = state.len() as int;
    let d = digits.len() as int;
    lemma_decimal_digits(ppid as nat);
    lemma_render_then_parse(ppid);
    assert(head.len() == pid_text.len() + 2 + name.len() + 1);
    assert(rest.len() == 1 + s + 1 + d + 1 + tail.len());
    assert(head[open] == OPEN_PAREN);
    assert(head[close] == CLOSE_PAREN);
    assert(rest[0] == SPACE);
    assert forall|k: int| 0 <= k < s implies rest[1 + k] == state[k] by {}
    assert(rest[1 + s] == SPACE);
    assert forall|k: int| 0 <= k < d implies rest[2 + s + k] == digits[k] by {}
    assert(rest[2 + s + d] == SPACE);
    assert forall|k: int| 0 <= k < tail.len() implies rest[3 + s + d + k] == tail[k] by {}
    assert forall|j: int| 0 <= j < rest.len() implies rest[j] != CLOSE_PAREN by {
        if 1 <= j < 1 + s {
            assert(rest[j] == state[j - 1]);
        } else if 2 + s <= j < 2 + s + d {
            assert(rest[j] == digits[j - 2 - s]);
            assert(is_digit(digits[j - 2 - s]));
        } else if 3 + s + d <= j {
            assert(rest[j] == tail[j - 3 - s - d]);
        }
    }
    assert(line[open] == OPEN_PAREN);
    assert(line[close] == CLOSE_PAREN);
    assert forall|j: int| close < j < line.len() implies line[j] != CLOSE_PAREN by {
        assert(line[j] == rest[j - head.len()]);
    }
    lemma_last_index_is(line, CLOSE_PAREN, close);
    lemma_field_end(line, OPEN_PAREN, 0);
    assert(field_end(line, OPEN_PAREN, 0) <= open);
    assert(line.subrange(close + 1, line.len() as int) =~= rest);
    assert(after_command_name(line) == Some(rest));
    reveal_with_fuel(field_start, 4);
    lemma_field_end_is(rest, SPACE, 0, 0);
    assert forall|j: int| 1 <= j < 1 + s implies rest[j] != SPACE by {
        assert(rest[j] == state[j - 1]);
    }
    lemma_field_end_is(rest, SPACE, 1, 1 + s);
    assert forall|j: int| 2 + s <= j < 2 + s + d implies rest[j] != SPACE by {
        assert(rest[j] == digits[j - 2 - s]);
        assert(is_digit(digits[j - 2 - s]));
    }
    lemma_field_end_is(rest, SPACE, 2 + s, 2 + s + d);
    assert(field_start(rest, SPACE, 1) == Some(1int));
    assert(field_start(rest, SPACE, 2) == Some(2 + s));
    assert(rest.subrange(2 + s, 2 + s + d) =~= digits);
}

/// The directory of process state, `/proc/`.
pub open spec fn proc_dir() -> Seq<u8> {
    seq![47, 112, 114, 111, 99, 47]
}

/// The name of the state file inside a process's directory, `/stat`.
pub open spec fn stat_file() -> Seq<u8> {
    seq![47, 115, 116, 97, 116]
}

/// The path of the file that holds the state line of `pid`.
pub open spec fn stat_path_spec(pid: u32) -> Seq<u8> {
    proc_dir() + decimal_digits(pid as nat) + stat_file()
}

/// Builds the path of the state file of `pid`.
pub fn stat_path(pid: u32) -> (path: Vec<u8>)
    ensures
        path@ == stat_path_spec(pid),
{
    let mut path: Vec<u8> = vec![47, 112, 114, 111, 99, 47];
    assert(path@ =~= proc_dir());
    let digits = render_u32(pid);
    append_bytes(&mut path, digits.as_slice());
    let file: Vec<u8> = vec![47, 115, 116, 97, 116];
    assert(file@ =~= stat_file());
    append_bytes(&mut path, file.as_slice());
    path
}

/// Reads the parent's process id out of a process-state line.
pub fn parse_parent_pid(stat: &[u8]) -> (r: Result<Option<u32>, ResolveError>)
    ensures
        r == parent_in_stat(stat@),
{
    let n: usize = stat.len();
    let close: usize = match find_last(stat, CLOSE_PAREN) {
        Some(close) => close,
        None => {
            return Err(ResolveError::EnvironmentRead);
        },
    };
    let open: usize = find_field_end(stat, OPEN_PAREN, 0);
    if open >= close {
        return Err(ResolveError::EnvironmentRead);
    }
    let rest = slice_subrange(stat, close + 1, n);
    match nth_field(rest, SPACE, PARENT_FIELD) {
        Some(f) => match parse_u32(f) {
            Some(ppid) => if ppid == 0 {
                Ok(None)
            } else {
                Ok(Some(ppid))
            },
            None => Err(ResolveError::EnvironmentRead),
        },
        None => Err(ResolveError::EnvironmentRead),
    }
}

/// The state line of one process, as it was read.
pub struct ProcessStat {
    pub pid: u32,
    pub stat: Vec<u8>,
}

/// A snapshot of process state: for each process that could be read, its
/// state line. A process that is absent could not be read.
pub struct ProcessTable {
    entries: Vec<ProcessStat>,
}

/// The map that a list of records stands for; a later record of a process
/// replaces an earlier one.
pub closed spec fn records_map(entries: Seq<ProcessStat>) -> Map<u32, Seq<u8>>
    decreases entries.len(),
{
    if entries.len() == 0 {
        Map::empty()
    } else {
        records_map(entries.drop_last()).insert(entries.last().pid, entries.last().stat@)
    }
}

/// The parent of `pid` according to a snapshot.
pub open spec fn parent_of(table: Map<u32, Seq<u8>>, pid: u32) -> Result<
    Option<u32>,
    ResolveError,
> {
    if table.contains_key(pid) {
        parent_in_stat(table[pid])
    } else {
        Err(ResolveError::EnvironmentRead)
    }
}

/// The ancestors of `pid`, nearest first, found with at most `fuel`
/// lookups. The walk fails as a whole where a lookup fails, and where the
/// root is not reached before the lookups run out.
pub open spec fn ancestry(table: Map<u32, Seq<u8>>, pid: u32, fuel: nat) -> Result<
    Seq<u32>,
    ResolveError,
>
    decreases fuel,
{
    if fuel == 0 {
        Err(ResolveError::AncestryTooDeep)
    } else {
        match parent_of(table, pid) {
            Err(e) => Err(e),
            Ok(None) => Ok(Seq::empty()),
            Ok(Some(p)) => match ancestry(table, p, (fuel - 1) as nat) {
                Ok(rest) => Ok(seq![p] + rest),
                Err(e) => Err(e),
            },
        }
    }
}

/// The ancestors of `pid` under the depth bound.
pub open spec fn ancestors_of(table: Map<u32, Seq<u8>>, pid: u32) -> Result<
    Seq<u32>,
    ResolveError,
> {
    ancestry(table, pid, MAX_ANCESTRY_DEPTH as nat)
}

/// The first process on the walk from `pid` whose state the snapshot
/// lacks; `None` where the walk ends without meeting one.
pub open spec fn walk_needs(table: Map<u32, Seq<u8>>, pid: u32, fuel: nat) -> Option<u32>
    decreases fuel,
{
    if fuel == 0 {
        None
    } else if !table.contains_key(pid) {
        Some(pid)
    } else {
        match parent_in_stat(table[pid]) {
            Ok(Some(p)) => walk_needs(table, p, (fuel - 1) as nat),
            _ => None,
        }
    }
}

/// Whether `more` holds every state line of `table`, unchanged.
pub open spec fn extends(more: Map<u32, Seq<u8>>, table: Map<u32, Seq<u8>>) -> bool {
    forall|pid: u32| #[trigger] table.contains_key(pid) ==> more.contains_key(pid) && more[pid] == table[pid]
}

/// Whether `chain` is the full line of ancestors of `pid`: each process on
/// it is the parent of the one before, the first is the parent of `pid`,
/// and the last has no parent.
pub open spec fn is_chain(table: Map<u32, Seq<u8>>, pid: u32, chain: Seq<u32>) -> bool
    decreases chain.len(),
{
    if chain.len() == 0 {
        parent_of(table, pid) == Ok::<Option<u32>, ResolveError>(None)
    } else {
        parent_of(table, pid) == Ok::<Option<u32>, ResolveError>(Some(chain[0])) && is_chain(
            table,
            chain[0],
            chain.drop_first(),
        )
    }
}

/// What a walk gives once `prefix` has been collected and the rest of the
/// walk gives `rest`.
pub open spec fn continued(prefix: Seq<u32>, rest: Result<Seq<u32>, ResolveError>) -> Result<
    Seq<u32>,
    ResolveError,
> {
    match rest {
        Ok(tail) => Ok(prefix + tail),
        Err(e) => Err(e),
    }
}

impl ProcessTable {
    /// The snapshot as a map from process id to state line.
    pub closed spec fn view(&self) -> Map<u32, Seq<u8>> {
        records_map(self.entries@)
    }

    /// A snapshot in which no process could be read.
    pub fn new() -> (t: ProcessTable)
        ensures
            t@ == Map::<u32, Seq<u8>>::empty(),
    {
        ProcessTable { entries: Vec::new() }
    }

    /// Records the state line of `pid`, in place of an earlier one.
    pub fn record(&mut self, pid: u32, stat: Vec<u8>)
        ensures
            final(self)@ == old(self)@.insert(pid, stat@),
    {
        let ghost before = self.entries@;
        self.entries.push(ProcessStat { pid, stat });
        assert(self.entries@.drop_last() =~= before);
    }

    /// The state line of `pid`, if it was recorded.
    pub fn stat_of(&self, pid: u32) -> (r: Option<&Vec<u8>>)
        ensures
            match r {
                Some(s) => self@.contains_key(pid) && self@[pid] == s@,
                None => !self@.contains_key(pid),
            },
    {
        let mut i: usize = self.entries.len();
        assert(self.entries@.take(i as int) =~= self.entries@);
        while i > 0
            invariant
                i <= self.entries@.len(),
                self@ == records_map(self.entries@),
                self@.contains_key(pid) == records_map(self.entries@.take(i as int)).contains_key(
                    pid,
                ),
                self@.contains_key(pid) ==> self@[pid] == records_map(
                    self.entries@.take(i as int),
                )[pid],
            decreases i,
        {
            i = i - 1;
            assert(self.entries@.take(i + 1).drop_last() =~= self.entries@.take(i as int));
            if self.entries[i].pid == pid {
                return Some(&self.entries[i].stat);
            }
        }
        assert(self.entries@.take(0).len() == 0);
        None
    }
}

/// The parent of `pid`: `None` for a process without a parent.
pub fn get_parent_pid(table: &ProcessTable, pid: u32) -> (r: Result<Option<u32>, ResolveError>)
    ensures
        r == parent_of(table@, pid),
{
    match table.stat_of(pid) {
        Some(stat) => parse_parent_pid(stat.as_slice()),
        None => Err(ResolveError::EnvironmentRead),
    }
}

/// The ancestors of `pid`, nearest first. Fails, with no partial
/// result, where the state of a process on the way is missing or
/// malformed, or the depth bound is reached.
pub fn get_parents_pids(table: &ProcessTable, pid: u32) -> (r: Result<Vec<u32>, ResolveError>)
    ensures
        match r {
            Ok(chain) => ancestors_of(table@, pid) == Ok::<Seq<u32>, ResolveError>(chain@),
            Err(e) => ancestors_of(table@, pid) == Err::<Seq<u32>, ResolveError>(e),
        },
{
    let mut chain: Vec<u32> = Vec::new();
    let mut current: u32 = pid;
    let mut left: usize = MAX_ANCESTRY_DEPTH;
    assert(chain@ + ancestry(table@, pid, left as nat).unwrap() =~= ancestry(
        table@,
        pid,
        left as nat,
    ).unwrap());
    while left > 0
        invariant
            ancestors_of(table@, pid) == continued(
                chain@,
                ancestry(table@, current, left as nat),
            ),
        decreases left,
    {
        match get_parent_pid(table, current) {
            Err(e) => {
                return Err(e);
            },
            Ok(None) => {
                assert(chain@ + Seq::<u32>::empty() =~= chain@);
                return Ok(chain);
            },
            Ok(Some(parent)) => {
                proof {
                    let rest = ancestry(table@, parent, (left - 1) as nat);
                    if let Ok(tail) = rest {
                        assert(chain@ + (seq![parent] + tail) =~= chain@.push(parent) + tail);
                    }
                }
                chain.push(parent);
                current = parent;
                left = left - 1;
            },
        }
    }
    Err(ResolveError::AncestryTooDeep)
}

/// The first process on the walk from `pid` that is yet to be read.
pub fn first_unread(table: &ProcessTable, pid: u32) -> (r: Option<u32>)
    ensures
        r == walk_needs(table@, pid, MAX_ANCESTRY_DEPTH as nat),
{
    let mut current: u32 = pid;
    let mut left: usize = MAX_ANCESTRY_DEPTH;
    while left > 0
        invariant
            walk_needs(table@, pid, MAX_ANCESTRY_DEPTH as nat) == walk_needs(
                table@,
                current,
                left as nat,
            ),
        decreases left,
    {
        match table.stat_of(current) {
            None => {
                return Some(current);
            },
            Some(stat) => match parse_parent_pid(stat.as_slice()) {
                Ok(Some(parent)) => {
                    current = parent;
                    left = left - 1;
                },
                _ => {
                    return None;
                },
            },
        }
    }
    None
}

/// A walk that meets no unread process is settled: reading more
/// processes does not change what it gives.
pub proof fn lemma_complete_walk_is_settled(
    table: Map<u32, Seq<u8>>,
    more: Map<u32, Seq<u8>>,
    pid: u32,
    fuel: nat,
)
    requires
        walk_needs(table, pid, fuel) is None,
        extends(more, table),
    ensures
        ancestry(more, pid, fuel) == ancestry(table, pid, fuel),
    decreases fuel,
{
    if fuel > 0 {
        assert(table.contains_key(pid));
        if let Ok(Some(p)) = parent_in_stat(table[pid]) {
            lemma_complete_walk_is_settled(table, more, p, (fuel - 1) as nat);
        }
    }
}

/// A walk that meets an unread process fails on it, and that process is
/// indeed absent from the snapshot.
pub proof fn lemma_unread_process_fails_walk(table: Map<u32, Seq<u8>>, pid: u32, fuel: nat)
    requires
        walk_needs(table, pid, fuel) is Some,
    ensures
        !table.contains_key(walk_needs(table, pid, fuel).unwrap()),
        ancestry(table, pid, fuel) == Err::<Seq<u32>, ResolveError>(ResolveError::EnvironmentRead),
    decreases fuel,
{
    if fuel > 0 && table.contains_key(pid) {
        if let Ok(Some(p)) = parent_in_stat(table[pid]) {
            lemma_unread_process_fails_walk(table, p, (fuel - 1) as nat);
        }
    }
}

/// A walk that succeeds used fewer lookups than it was allowed hops, and
/// what it returns is the full line of ancestors.
pub proof fn lemma_ancestry_is_chain(table: Map<u32, Seq<u8>>, pid: u32, fuel: nat)
    requires
        ancestry(table, pid, fuel) is Ok,
    ensures
        ancestry(table, pid, fuel).unwrap().len() < fuel,
        is_chain(table, pid, ancestry(table, pid, fuel).unwrap()),
    decreases fuel,
{
    if let Ok(Some(p)) = parent_of(table, pid) {
        lemma_ancestry_is_chain(table, p, (fuel - 1) as nat);
        let rest = ancestry(table, p, (fuel - 1) as nat).unwrap();
        assert((seq![p] + rest).drop_first() =~= rest);
    }
}

/// Where the line of ancestors of a process reaches the root in fewer hops
/// than the walk has lookups, the walk succeeds and returns that line.
pub proof fn lemma_chain_is_found(table: Map<u32, Seq<u8>>, pid: u32, chain: Seq<u32>, fuel: nat)
    requires
        is_chain(table, pid, chain),
        chain.len() < fuel,
    ensures
        ancestry(table, pid, fuel) == Ok::<Seq<u32>, ResolveError>(chain),
    decreases fuel,
{
    if chain.len() > 0 {
        lemma_chain_is_found(table, chain[0], chain.drop_first(), (fuel - 1) as nat);
        assert(seq![chain[0]] + chain.drop_first() =~= chain);
    } else {
        assert(chain =~= Seq::empty());
    }
}

/// A process whose line of ancestors reaches the root in fewer hops than
/// the depth bound has that line as its ancestors: the walk ends, and
/// ends well.
pub proof fn lemma_walk_reaches_root(table: Map<u32, Seq<u8>>, pid: u32, chain: Seq<u32>)
    requires
        is_chain(table, pid, chain),
        chain.len() < MAX_ANCESTRY_DEPTH,
    ensures
        ancestors_of(table, pid) == Ok::<Seq<u32>, ResolveError>(chain),
{
    lemma_chain_is_found(table, pid, chain, MAX_ANCESTRY_DEPTH as nat);
}

/// A walk fails for one of two reasons only: the state of a process on
/// the way could not be read, or the depth bound was reached.
pub proof fn lemma_walk_errors(table: Map<u32, Seq<u8>>, pid: u32, fuel: nat)
    ensures
        match ancestry(table, pid, fuel) {
            Ok(_) => true,
            Err(e) => e == ResolveError::EnvironmentRead || e == ResolveError::AncestryTooDeep,
        },
    decreases fuel,
{
    if fuel > 0 {
        if let Ok(Some(p)) = parent_of(table, pid) {
            lemma_walk_errors(table, p, (fuel - 1) as nat);
        }
    }
}

} // verus!
