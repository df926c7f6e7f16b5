//! Process filtering.

use crate::watch::monitor::{
    in_order, insert_ordered, lemma_sorted, single_lt, sort_processes, stable_sorted, IeeeSingle,
    ProcessInfo, SortBy,
};
use vstd::prelude::*;

verus! {

/// The regular expression `pattern` compiles (`regex::Regex::new` is `Ok`).
pub uninterp spec fn regex_valid(pattern: Seq<char>) -> bool;

/// The compiled `pattern` matches somewhere in `text` (`regex::Regex::is_match`).
pub uninterp spec fn regex_accepts(pattern: Seq<char>, text: Seq<char>) -> bool;

/// Compiles `pattern` with `regex::Regex::new`; on failure, the error's message.
#[verifier::external_body]
fn compile_pattern(pattern: &str) -> (r: Result<(), String>)
    ensures
        r is Ok <==> regex_valid(pattern@),
{
    regex::Regex::new(pattern).map(|_| ()).map_err(|e| e.to_string())
}

/// Whether the compiled `pattern` matches `text` (`regex::Regex::is_match`).
#[verifier::external_body]
fn pattern_matches(pattern: &str, text: &str) -> (r: bool)
    requires
        regex_valid(pattern@),
    ensures
        r == regex_accepts(pattern@, text@),
{
    regex::Regex::new(pattern).map(|re| re.is_match(text)).unwrap_or(false)
}

/// Why a filter could not be built.
#[derive(Debug, Clone, PartialEq, Eq)]
pub enum FilterError {
    /// The name pattern is not a valid regular expression; the text says why.
    InvalidPattern(String),
}

/// Filter for processes. Every condition that is set must hold.
#[derive(Debug, PartialEq)]
pub struct ProcessFilter {
    name_pattern: Option<String>,
    pid: Option<u32>,
    cpu_above: Option<IeeeSingle>,
    memory_above: Option<u64>,
}

/// The view of an optional string.
pub open spec fn opt_text(s: Option<String>) -> Option<Seq<char>> {
    match s {
        Some(t) => Some(t@),
        None => None,
    }
}

impl ProcessFilter {
    #[verifier::type_invariant]
    closed spec fn pattern_compiles(self) -> bool {
        self.name_pattern matches Some(p) ==> regex_valid(p@)
    }

    /// The regular expression process names must match.
    pub closed spec fn name_pattern(self) -> Option<Seq<char>> {
        opt_text(self.name_pattern)
    }

    /// The PID a process must have.
    pub closed spec fn pid(self) -> Option<u32> {
        self.pid
    }

    /// The CPU share a process must be above.
    pub closed spec fn cpu_above(self) -> Option<IeeeSingle> {
        self.cpu_above
    }

    /// The memory (bytes) a process must be above.
    pub closed spec fn memory_above(self) -> Option<u64> {
        self.memory_above
    }

    /// A filter that keeps every process.
    pub fn new() -> (r: Self)
        ensures
            r.name_pattern() is None,
            r.pid() is None,
            r.cpu_above() is None,
            r.memory_above() is None,
    {
        ProcessFilter { name_pattern: None, pid: None, cpu_above: None, memory_above: None }
    }

    /// Also require process names to match the regular expression `pattern`; an
    /// error if it does not compile.
    pub fn with_name_pattern(self, pattern: &str) -> (r: Result<Self, FilterError>)
        ensures
            r is Ok <==> regex_valid(pattern@),
            r matches Ok(f) ==> f.name_pattern() == Some(pattern@) && f.pid() == self.pid()
                && f.cpu_above() == self.cpu_above() && f.memory_above() == self.memory_above(),
    {
        match compile_pattern(pattern) {
            Ok(()) => Ok(ProcessFilter { name_pattern: Some(pattern.to_string()), ..self }),
            Err(msg) => Err(FilterError::InvalidPattern(msg)),
        }
    }

    /// Also require the PID `pid`.
    pub fn with_pid(self, pid: u32) -> (r: Self)
        ensures
            r.pid() == Some(pid),
            r.name_pattern() == self.name_pattern(),
            r.cpu_above() == self.cpu_above(),
            r.memory_above() == self.memory_above(),
    {
        proof {
            use_type_invariant(&self);
        }
        ProcessFilter { pid: Some(pid), ..self }
    }

    /// Also require a CPU share of more than `percent` (a NaN reading is not more).
    pub fn with_cpu_above(self, percent: IeeeSingle) -> (r: Self)
        ensures
            r.cpu_above() == Some(percent),
            r.name_pattern() == self.name_pattern(),
            r.pid() == self.pid(),
            r.memory_above() == self.memory_above(),
    {
        proof {
            use_type_invariant(&self);
        }
        ProcessFilter { cpu_above: Some(percent), ..self }
    }

    /// Also require more than `bytes` of memory.
    pub fn with_memory_above(self, bytes: u64) -> (r: Self)
        ensures
            r.memory_above() == Some(bytes),
            r.name_pattern() == self.name_pattern(),
            r.pid() == self.pid(),
            r.cpu_above() == self.cpu_above(),
    {
        proof {
            use_type_invariant(&self);
        }
        ProcessFilter { memory_above: Some(bytes), ..self }
    }

    /// Whether `process` meets every condition of the filter.
    pub fn matches(&self, process: &ProcessInfo) -> (r: bool)
        ensures
            r == keeps(*self, *process),
    {
        proof {
            use_type_invariant(self);
        }
        if let Some(pattern) = &self.name_pattern {
            if !pattern_matches(pattern.as_str(), process.name.as_str()) {
                return false;
            }
        }
        if let Some(pid) = self.pid {
            if process.pid != pid {
                return false;
            }
        }
        if let Some(cpu) = self.cpu_above {
            if !cpu.lt(&process.cpu_percent) {
                return false;
            }
        }
        if let Some(mem) = self.memory_above {
            if process.memory_bytes <= mem {
                return false;
            }
        }
        true
    }

    /// Whether the filter sets no condition (and so keeps every process).
    pub fn is_empty(&self) -> (r: bool)
        ensures
            r == (self.name_pattern() is None && self.pid() is None && self.cpu_above() is None
                && self.memory_above() is None),
    {
        self.name_pattern.is_none() && self.pid.is_none() && self.cpu_above.is_none()
            && self.memory_above.is_none()
    }
}

impl Default for ProcessFilter {
    fn default() -> (r: Self)
        ensures
            r.name_pattern() is None,
            r.pid() is None,
            r.cpu_above() is None,
            r.memory_above() is None,
    {
        ProcessFilter::new()
    }
}

impl Clone for ProcessFilter {
    fn clone(&self) -> (r: Self)
        ensures
            r.name_pattern() == self.name_pattern(),
            r.pid() == self.pid(),
            r.cpu_above() == self.cpu_above(),
            r.memory_above() == self.memory_above(),
    {
        proof {
            use_type_invariant(self);
        }
        let name_pattern = match &self.name_pattern {
            Some(p) => Some(p.clone()),
            None => None,
        };
        ProcessFilter { name_pattern, pid: self.pid, cpu_above: self.cpu_above, memory_above: self.memory_above }
    }
}

/// The filter keeps the process: its name matches the pattern, its PID is the one
/// required, and its CPU share and memory are more than the thresholds.
pub open spec fn keeps(f: ProcessFilter, p: ProcessInfo) -> bool {
    &&& (f.name_pattern() matches Some(pat) ==> regex_accepts(pat, p.name@))
    &&& (f.pid() matches Some(pid) ==> p.pid == pid)
    &&& (f.cpu_above() matches Some(c) ==> single_lt(c.bits, p.cpu_percent.bits))
    &&& (f.memory_above() matches Some(m) ==> p.memory_bytes > m)
}

/// The processes of `s` that the filter keeps, in order.
pub open spec fn kept(s: Seq<ProcessInfo>, f: ProcessFilter) -> Seq<ProcessInfo>
    decreases s.len(),
{
    if s.len() == 0 {
        Seq::empty()
    } else if keeps(f, s.last()) {
        kept(s.drop_last(), f).push(s.last())
    } else {
        kept(s.drop_last(), f)
    }
}

/// Sorting by CPU share compares readings with `partial_cmp`, which has no answer
/// for a NaN: as soon as two processes are sorted, none may read NaN.
pub open spec fn sortable(s: Seq<ProcessInfo>, by: SortBy) -> bool {
    by == SortBy::Cpu && s.len() >= 2 ==> forall|i: int| 0 <= i < s.len() ==> !crate::watch::monitor::is_nan(#[trigger] s[i].cpu_percent.bits)
}

/// The processes the filter keeps, sorted by `by` (ties keep their order).
pub fn select_processes(infos: Vec<ProcessInfo>, filter: &ProcessFilter, by: SortBy) -> (r: Vec<ProcessInfo>)
    requires
        sortable(kept(infos@, *filter), by),
    ensures
        r@ == stable_sorted(kept(infos@, *filter), by),
        in_order(r@, by),
        r@.to_multiset() == kept(infos@, *filter).to_multiset(),
{
    let mut rest = infos;
    let mut chosen: Vec<ProcessInfo> = Vec::new();
    let ghost all = rest@;
    let n = rest.len();
    for i in 0..n
        invariant
            n == all.len(),
            rest@ == all.skip(i as int),
            chosen@ == kept(all.take(i as int), *filter),
    {
        let p = rest.remove(0);
        assert(all.take(i + 1).drop_last() =~= all.take(i as int));
        assert(all.take(i + 1).last() == all[i as int]);
        if filter.matches(&p) {
            chosen.push(p);
        }
        assert(rest@ =~= all.skip(i + 1));
    }
    assert(all.take(n as int) =~= all);
    proof {
        lemma_selection_ordered(chosen@, by);
    }
    sort_processes(chosen, by)
}

proof fn lemma_selection_ordered(s: Seq<ProcessInfo>, by: SortBy)
    requires
        sortable(s, by),
    ensures
        in_order(stable_sorted(s, by), by),
        stable_sorted(s, by).to_multiset() == s.to_multiset(),
{
    broadcast use vstd::seq_lib::group_to_multiset_ensures;

    if s.len() >= 2 || by != SortBy::Cpu {
        lemma_sorted(s, by);
    } else if s.len() == 1 {
        assert(s.drop_last() =~= Seq::<ProcessInfo>::empty());
        assert(stable_sorted(s.drop_last(), by) =~= Seq::<ProcessInfo>::empty());
        assert(insert_ordered(Seq::<ProcessInfo>::empty(), s.last(), by) == seq![s.last()]);
        assert(stable_sorted(s, by) =~= s);
    } else {
        assert(stable_sorted(s, by) =~= s);
    }
}

/// A filter with no condition keeps every process.
pub proof fn lemma_empty_filter_keeps_all(f: ProcessFilter, p: ProcessInfo)
    requires
        f.name_pattern() is None,
        f.pid() is None,
        f.cpu_above() is None,
        f.memory_above() is None,
    ensures
        keeps(f, p),
{
}

/// What a filter keeps depends on a process's name, PID, CPU share and memory only: two
/// processes that agree on these (whatever their executable, command line, user or
/// status) are both kept or both dropped.
pub proof fn lemma_filter_reads_name_pid_cpu_memory(f: ProcessFilter, p: ProcessInfo, q: ProcessInfo)
    requires
        p.name@ == q.name@,
        p.pid == q.pid,
        p.cpu_percent == q.cpu_percent,
        p.memory_bytes == q.memory_bytes,
    ensures
        keeps(f, p) == keeps(f, q),
{
}

/// Each condition alone: a filter with only a name pattern keeps the processes whose
/// name the pattern matches; with only a PID, the process with that PID; with only a CPU
/// share, the processes using more; with only a memory size, the processes using more.
pub proof fn lemma_single_condition_filters(f: ProcessFilter, p: ProcessInfo)
    ensures
        f.pid() is None && f.cpu_above() is None && f.memory_above() is None ==> (f.name_pattern() matches Some(pat)
            ==> (keeps(f, p) <==> regex_accepts(pat, p.name@))),
        f.name_pattern() is None && f.cpu_above() is None && f.memory_above() is None ==> (f.pid() matches Some(q)
            ==> (keeps(f, p) <==> p.pid == q)),
        f.name_pattern() is None && f.pid() is None && f.memory_above() is None ==> (f.cpu_above() matches Some(c)
            ==> (keeps(f, p) <==> single_lt(c.bits, p.cpu_percent.bits))),
        f.name_pattern() is None && f.pid() is None && f.cpu_above() is None ==> (f.memory_above() matches Some(m)
            ==> (keeps(f, p) <==> p.memory_bytes > m)),
{
}

/// Adding conditions only narrows: a process a filter keeps passes every condition that
/// the filter sets, taken alone.
pub proof fn lemma_kept_passes_each_condition(f: ProcessFilter, p: ProcessInfo)
    requires
        keeps(f, p),
    ensures
        f.name_pattern() matches Some(pat) ==> regex_accepts(pat, p.name@),
        f.pid() matches Some(q) ==> p.pid == q,
        f.cpu_above() matches Some(c) ==> single_lt(c.bits, p.cpu_percent.bits),
        f.memory_above() matches Some(m) ==> p.memory_bytes > m,
{
}

/// The processes a filter selects are exactly those of the list that it keeps, in the
/// list's order.
pub proof fn lemma_kept_is_filter(s: Seq<ProcessInfo>, f: ProcessFilter)
    ensures
        kept(s, f) == s.filter(|p: ProcessInfo| keeps(f, p)),
    decreases s.len(),
{
    reveal_with_fuel(Seq::filter, 1);
    if s.len() > 0 {
        lemma_kept_is_filter(s.drop_last(), f);
    }
}

/// A filter built from command-line options: a name pattern, a PID, a CPU
/// share to exceed and a memory in megabytes (MiB) to exceed.
pub fn build_filter(
    name_pattern: Option<&str>,
    pid: Option<u32>,
    cpu_above: Option<IeeeSingle>,
    memory_above_mb: Option<u64>,
) -> (r: Result<ProcessFilter, FilterError>)
    requires
        memory_above_mb matches Some(mb) ==> mb * 1024 * 1024 <= u64::MAX,
    ensures
        r is Ok <==> (name_pattern matches Some(p) ==> regex_valid(p@)),
        r matches Ok(f) ==> {
            &&& f.name_pattern() == crate::amconf::dirs::opt_view(name_pattern)
            &&& f.pid() == pid
            &&& f.cpu_above() == cpu_above
            &&& f.memory_above() == (match memory_above_mb {
                Some(mb) => Some((mb * 1024 * 1024) as u64),
                None => None,
            })
        },
{
    let mut filter = ProcessFilter::new();
    if let Some(p) = name_pattern {
        filter = filter.with_name_pattern(p)?;
    }
    if let Some(id) = pid {
        filter = filter.with_pid(id);
    }
    if let Some(c) = cpu_above {
        filter = filter.with_cpu_above(c);
    }
    if let Some(mb) = memory_above_mb {
        filter = filter.with_memory_above(mb * 1024 * 1024);
    }
    Ok(filter)
}

} // verus!
