//! Process and system readings, and the ordering of processes.

use crate::text::chars_of;
use crate::time::Timestamp;
use vstd::prelude::*;

verus! {

/// An IEEE 754 single-precision reading (such as a CPU share in percent), held by its
/// bit pattern (`f32::to_bits`).
#[derive(Debug, Clone, Copy, PartialEq, Eq, Structural)]
pub struct IeeeSingle {
    pub bits: u32,
}

/// An IEEE 754 double-precision reading, held by its bit pattern (`f64::to_bits`).
#[derive(Debug, Clone, Copy, PartialEq, Eq, Structural)]
pub struct IeeeDouble {
    pub bits: u64,
}

/// The bit pattern of a single without its sign bit.
pub open spec fn magnitude(bits: u32) -> int {
    (bits % 0x8000_0000) as int
}

/// The sign bit of a single is set.
pub open spec fn sign_set(bits: u32) -> bool {
    bits >= 0x8000_0000
}

/// The single is a NaN: all exponent bits set and a non-zero fraction.
pub open spec fn is_nan(bits: u32) -> bool {
    magnitude(bits) > 0x7F80_0000
}

/// IEEE 754 `a < b` on singles: false when either is a NaN, false between the two
/// zeros, and otherwise the order of the real values (infinities at the ends).
pub open spec fn single_lt(a: u32, b: u32) -> bool {
    if is_nan(a) || is_nan(b) {
        false
    } else if magnitude(a) == 0 && magnitude(b) == 0 {
        false
    } else if !sign_set(a) && !sign_set(b) {
        magnitude(a) < magnitude(b)
    } else if sign_set(a) && sign_set(b) {
        magnitude(a) > magnitude(b)
    } else {
        sign_set(a)
    }
}

impl IeeeSingle {
    /// Whether the reading is a NaN.
    pub fn is_nan(&self) -> (r: bool)
        ensures
            r == is_nan(self.bits),
    {
        self.bits % 0x8000_0000 > 0x7F80_0000
    }

    /// Whether this reading is less than `other`, as `f32`'s `<` decides.
    pub fn lt(&self, other: &IeeeSingle) -> (r: bool)
        ensures
            r == single_lt(self.bits, other.bits),
    {
        let a = self.bits;
        let b = other.bits;
        let ma = a % 0x8000_0000;
        let mb = b % 0x8000_0000;
        if ma > 0x7F80_0000 || mb > 0x7F80_0000 {
            false
        } else if ma == 0 && mb == 0 {
            false
        } else if a < 0x8000_0000 && b < 0x8000_0000 {
            ma < mb
        } else if a >= 0x8000_0000 && b >= 0x8000_0000 {
            ma > mb
        } else {
            a >= 0x8000_0000
        }
    }
}

#[derive(Debug, Clone, PartialEq)]
pub struct CpuInfo {
    pub usage_percent: IeeeSingle,
    pub core_count: usize,
    pub brand: String,
    pub frequency_mhz: u64,
}

#[derive(Debug, Clone, Copy, PartialEq, Eq, Structural)]
pub struct MemoryInfo {
    pub total_bytes: u64,
    pub used_bytes: u64,
    pub free_bytes: u64,
    pub swap_total_bytes: u64,
    pub swap_used_bytes: u64,
}

#[derive(Debug, Clone, Copy, PartialEq, Eq, Structural)]
pub struct LoadAverage {
    pub one: IeeeDouble,
    pub five: IeeeDouble,
    pub fifteen: IeeeDouble,
}

/// System resource snapshot.
#[derive(Debug, Clone, PartialEq)]
pub struct SystemSnapshot {
    pub timestamp: Timestamp,
    pub hostname: String,
    pub cpu: CpuInfo,
    pub memory: MemoryInfo,
    pub load_average: LoadAverage,
}

/// The state of a process, as the text that names it (e.g. `Run`, `Sleep`).
#[derive(Debug, Clone, PartialEq)]
pub struct ProcessStatusStr(pub String);

/// Process information.
#[derive(Debug, Clone, PartialEq)]
pub struct ProcessInfo {
    pub pid: u32,
    pub name: String,
    pub cmd: Vec<String>,
    pub exe: Option<String>,
    pub cpu_percent: IeeeSingle,
    pub memory_bytes: u64,
    pub memory_percent: IeeeSingle,
    pub status: ProcessStatusStr,
    pub user: Option<String>,
    pub start_time: Option<Timestamp>,
    pub run_time_secs: u64,
}

/// Sorting options for processes.
#[derive(Debug, Clone, Copy, PartialEq, Eq, Structural)]
pub enum SortBy {
    /// Highest CPU share first.
    Cpu,
    /// Most memory first.
    Memory,
    /// Lowest PID first.
    Pid,
    /// Names in lexicographic order.
    Name,
}

/// `a` comes before `b` in lexicographic order of characters (which, for UTF-8
/// text, is the byte order `String`'s `Ord` uses).
pub open spec fn text_lt(a: Seq<char>, b: Seq<char>) -> bool
    decreases a.len(),
{
    if a.len() == 0 {
        b.len() > 0
    } else if b.len() == 0 {
        false
    } else if a[0] != b[0] {
        (a[0] as u32) < (b[0] as u32)
    } else {
        text_lt(a.drop_first(), b.drop_first())
    }
}

fn text_less(a: &Vec<char>, b: &Vec<char>) -> (r: bool)
    ensures
        r == text_lt(a@, b@),
{
    let n = if a.len() < b.len() { a.len() } else { b.len() };
    let mut i: usize = 0;
    assert(a@.skip(0) =~= a@);
    assert(b@.skip(0) =~= b@);
    while i < n
        invariant
            n <= a@.len(),
            n <= b@.len(),
            n == a@.len() || n == b@.len(),
            i <= n,
            forall|j: int| 0 <= j < i ==> a@[j] == b@[j],
            text_lt(a@, b@) == text_lt(a@.skip(i as int), b@.skip(i as int)),
        decreases n - i,
    {
        if a[i] != b[i] {
            proof {
                assert(a@.skip(i as int)[0] == a@[i as int]);
                assert(b@.skip(i as int)[0] == b@[i as int]);
            }
            return (a[i] as u32) < (b[i] as u32);
        }
        proof {
            assert(a@.skip(i as int).drop_first() =~= a@.skip(i + 1));
            assert(b@.skip(i as int).drop_first() =~= b@.skip(i + 1));
        }
        i = i + 1;
    }
    a.len() < b.len()
}

/// `a` comes strictly before `b` in the order `by`.
pub open spec fn goes_before(a: ProcessInfo, b: ProcessInfo, by: SortBy) -> bool {
    match by {
        SortBy::Cpu => single_lt(b.cpu_percent.bits, a.cpu_percent.bits),
        SortBy::Memory => a.memory_bytes > b.memory_bytes,
        SortBy::Pid => a.pid < b.pid,
        SortBy::Name => text_lt(a.name@, b.name@),
    }
}

fn precedes(a: &ProcessInfo, b: &ProcessInfo, by: SortBy) -> (r: bool)
    ensures
        r == goes_before(*a, *b, by),
{
    match by {
        SortBy::Cpu => b.cpu_percent.lt(&a.cpu_percent),
        SortBy::Memory => a.memory_bytes > b.memory_bytes,
        SortBy::Pid => a.pid < b.pid,
        SortBy::Name => {
            let x = chars_of(a.name.as_str());
            let y = chars_of(b.name.as_str());
            text_less(&x, &y)
        },
    }
}

/// `x` placed into `s` after every element it does not go before, scanning from
/// the back (so it lands after the elements it ties with).
pub open spec fn insert_ordered(s: Seq<ProcessInfo>, x: ProcessInfo, by: SortBy) -> Seq<ProcessInfo>
    decreases s.len(),
{
    if s.len() == 0 {
        seq![x]
    } else if goes_before(x, s.last(), by) {
        insert_ordered(s.drop_last(), x, by).push(s.last())
    } else {
        s.push(x)
    }
}

/// The stable sort of `s` in the order `by`: elements that tie keep their order.
pub open spec fn stable_sorted(s: Seq<ProcessInfo>, by: SortBy) -> Seq<ProcessInfo>
    decreases s.len(),
{
    if s.len() == 0 {
        Seq::empty()
    } else {
        insert_ordered(stable_sorted(s.drop_last(), by), s.last(), by)
    }
}

/// Scanning back from `j`, the place where `x` is inserted.
proof fn lemma_insert_at(s: Seq<ProcessInfo>, x: ProcessInfo, by: SortBy, j: int)
    requires
        0 <= j <= s.len(),
        forall|k: int| j <= k < s.len() ==> goes_before(x, #[trigger] s[k], by),
        j == 0 || !goes_before(x, s[j - 1], by),
    ensures
        insert_ordered(s, x, by) == s.take(j).push(x) + s.skip(j),
    decreases s.len(),
{
    if s.len() == 0 {
        assert(s.take(j).push(x) + s.skip(j) =~= seq![x]);
    } else if j == s.len() {
        assert(s.take(j).push(x) + s.skip(j) =~= s.push(x));
    } else {
        assert(goes_before(x, s[s.len() - 1], by));
        let t = s.drop_last();
        lemma_insert_at(t, x, by, j);
        assert(t.take(j).push(x) + t.skip(j) + seq![s.last()] =~= s.take(j).push(x) + s.skip(j));
    }
}

/// Inserts `x` into `out` in the order `by`, after the elements it ties with.
fn insert_in_order(out: &mut Vec<ProcessInfo>, x: ProcessInfo, by: SortBy)
    ensures
        final(out)@ == insert_ordered(old(out)@, x, by),
{
    let mut j = out.len();
    while j > 0 && precedes(&x, &out[j - 1], by)
        invariant
            j <= out@.len(),
            out@ == old(out)@,
            forall|k: int| j <= k < out@.len() ==> goes_before(x, #[trigger] out@[k], by),
        decreases j,
    {
        j = j - 1;
    }
    proof {
        lemma_insert_at(out@, x, by, j as int);
    }
    let ghost before = out@;
    out.insert(j, x);
    assert(out@ =~= before.take(j as int).push(x) + before.skip(j as int));
}

/// Sorts `items` in the order `by`, keeping the order of elements that tie (the
/// order `slice::sort_by` gives).
pub fn sort_processes(items: Vec<ProcessInfo>, by: SortBy) -> (r: Vec<ProcessInfo>)
    ensures
        r@ == stable_sorted(items@, by),
{
    let mut rest = items;
    let mut out: Vec<ProcessInfo> = Vec::new();
    let ghost all = rest@;
    let n = rest.len();
    for i in 0..n
        invariant
            n == all.len(),
            rest@ == all.skip(i as int),
            out@ == stable_sorted(all.take(i as int), by),
    {
        let x = rest.remove(0);
        assert(all.take(i + 1).drop_last() =~= all.take(i as int));
        assert(all.take(i + 1).last() == all[i as int]);
        insert_in_order(&mut out, x, by);
        assert(rest@ =~= all.skip(i + 1));
    }
    assert(all.take(n as int) =~= all);
    out
}


/// The order of a single's real value (for one that is not a NaN): the two zeros
/// are the same point.
pub open spec fn single_rank(bits: u32) -> int {
    if sign_set(bits) {
        -magnitude(bits)
    } else {
        magnitude(bits)
    }
}

/// Between singles that are not NaNs, `<` is the order of their ranks.
pub proof fn lemma_single_lt_rank(a: u32, b: u32)
    requires
        !is_nan(a),
        !is_nan(b),
    ensures
        single_lt(a, b) <==> single_rank(a) < single_rank(b),
{
}

proof fn lemma_text_lt_irreflexive(a: Seq<char>)
    ensures
        !text_lt(a, a),
    decreases a.len(),
{
    if a.len() > 0 {
        lemma_text_lt_irreflexive(a.drop_first());
    }
}

proof fn lemma_text_lt_asymmetric(a: Seq<char>, b: Seq<char>)
    ensures
        text_lt(a, b) ==> !text_lt(b, a),
    decreases a.len(),
{
    if a.len() > 0 && b.len() > 0 && a[0] == b[0] {
        lemma_text_lt_asymmetric(a.drop_first(), b.drop_first());
    }
}

proof fn lemma_text_lt_transitive(a: Seq<char>, b: Seq<char>, c: Seq<char>)
    ensures
        text_lt(a, b) && text_lt(b, c) ==> text_lt(a, c),
    decreases a.len(),
{
    if a.len() > 0 && b.len() > 0 && c.len() > 0 && a[0] == b[0] && b[0] == c[0] {
        lemma_text_lt_transitive(a.drop_first(), b.drop_first(), c.drop_first());
    }
}

proof fn lemma_text_lt_total(a: Seq<char>, b: Seq<char>)
    ensures
        a == b || text_lt(a, b) || text_lt(b, a),
    decreases a.len(),
{
    if a.len() > 0 && b.len() > 0 && a[0] == b[0] {
        lemma_text_lt_total(a.drop_first(), b.drop_first());
        if a.drop_first() == b.drop_first() {
            assert(a =~= seq![a[0]] + a.drop_first());
            assert(b =~= seq![b[0]] + b.drop_first());
        }
    } else if a.len() > 0 && b.len() > 0 {
        vstd::utf8::char_u32_cast(a[0], a[0] as u32);
        vstd::utf8::char_u32_cast(b[0], b[0] as u32);
    } else if a.len() == 0 && b.len() == 0 {
        assert(a =~= b);
    }
}

/// The process can be placed in the order `by`: when ordering by CPU share, its
/// reading is not a NaN.
pub open spec fn orderable(p: ProcessInfo, by: SortBy) -> bool {
    by == SortBy::Cpu ==> !is_nan(p.cpu_percent.bits)
}

/// On orderable processes, `goes_before` is a strict weak order: never both ways, and
/// not going before is transitive.
pub proof fn lemma_weak_order(a: ProcessInfo, b: ProcessInfo, c: ProcessInfo, by: SortBy)
    requires
        orderable(a, by),
        orderable(b, by),
        orderable(c, by),
    ensures
        goes_before(a, b, by) ==> !goes_before(b, a, by),
        !goes_before(a, b, by) && !goes_before(b, c, by) ==> !goes_before(a, c, by),
{
    match by {
        SortBy::Cpu => {
            lemma_single_lt_rank(a.cpu_percent.bits, b.cpu_percent.bits);
            lemma_single_lt_rank(b.cpu_percent.bits, a.cpu_percent.bits);
            lemma_single_lt_rank(b.cpu_percent.bits, c.cpu_percent.bits);
            lemma_single_lt_rank(c.cpu_percent.bits, b.cpu_percent.bits);
            lemma_single_lt_rank(a.cpu_percent.bits, c.cpu_percent.bits);
            lemma_single_lt_rank(c.cpu_percent.bits, a.cpu_percent.bits);
        },
        SortBy::Name => {
            let (x, y, z) = (a.name@, b.name@, c.name@);
            lemma_text_lt_asymmetric(x, y);
            lemma_text_lt_total(x, y);
            lemma_text_lt_total(y, z);
            lemma_text_lt_irreflexive(x);
            lemma_text_lt_asymmetric(z, x);
            lemma_text_lt_transitive(z, y, x);
            lemma_text_lt_asymmetric(x, z);
        },
        _ => {},
    }
}

/// No element goes before one placed earlier.
pub open spec fn in_order(s: Seq<ProcessInfo>, by: SortBy) -> bool {
    forall|i: int, j: int| 0 <= i < j < s.len() ==> !goes_before(#[trigger] s[j], #[trigger] s[i], by)
}

/// Every element can be placed in the order `by`.
pub open spec fn all_orderable(s: Seq<ProcessInfo>, by: SortBy) -> bool {
    forall|i: int| 0 <= i < s.len() ==> orderable(#[trigger] s[i], by)
}

proof fn lemma_insert_keeps_order(s: Seq<ProcessInfo>, x: ProcessInfo, by: SortBy)
    requires
        in_order(s, by),
        all_orderable(s, by),
        orderable(x, by),
    ensures
        in_order(insert_ordered(s, x, by), by),
        all_orderable(insert_ordered(s, x, by), by),
        insert_ordered(s, x, by).to_multiset() =~= s.to_multiset().insert(x),
    decreases s.len(),
{
    broadcast use vstd::seq_lib::group_to_multiset_ensures;

    if s.len() == 0 {
        assert(seq![x] =~= Seq::<ProcessInfo>::empty().push(x));
    } else {
        let t = s.drop_last();
        let l = s.last();
        assert(s =~= t.push(l));
        if goes_before(x, l, by) {
            lemma_insert_keeps_order(t, x, by);
            let u = insert_ordered(t, x, by);
            let r = u.push(l);
            assert forall|i: int, j: int| 0 <= i < j < r.len() implies !goes_before(#[trigger] r[j], #[trigger] r[i], by) by {
                if j == r.len() - 1 {
                    // every element of u is x or an element of t, which does not go after l
                    assert(u.to_multiset().count(r[i]) > 0);
                    assert(u.to_multiset().count(r[i]) == t.to_multiset().insert(x).count(r[i]));
                    if r[i] == x {
                        lemma_weak_order(x, l, l, by);
                    } else {
                        assert(t.to_multiset().count(r[i]) > 0);
                        let k = choose|k: int| 0 <= k < t.len() && t[k] == r[i];
                        assert(s[k] == r[i]);
                        assert(!goes_before(s[s.len() - 1], s[k], by));
                    }
                }
            }
            assert forall|i: int| 0 <= i < r.len() implies orderable(#[trigger] r[i], by) by {
                if i < u.len() {
                    assert(r[i] == u[i]);
                }
            }
        } else {
            let r = s.push(x);
            assert forall|i: int, j: int| 0 <= i < j < r.len() implies !goes_before(#[trigger] r[j], #[trigger] r[i], by) by {
                if j == r.len() - 1 && i < s.len() - 1 {
                    assert(!goes_before(s[s.len() - 1], s[i], by));
                    lemma_weak_order(x, s[s.len() - 1], s[i], by);
                }
            }
        }
    }
}

/// Sorting puts the processes in order and loses or adds none.
pub proof fn lemma_sorted(s: Seq<ProcessInfo>, by: SortBy)
    requires
        all_orderable(s, by),
    ensures
        in_order(stable_sorted(s, by), by),
        stable_sorted(s, by).to_multiset() == s.to_multiset(),
    decreases s.len(),
{
    broadcast use vstd::seq_lib::group_to_multiset_ensures;

    if s.len() > 0 {
        let t = s.drop_last();
        assert forall|i: int| 0 <= i < t.len() implies orderable(#[trigger] t[i], by) by {
            assert(t[i] == s[i]);
        }
        lemma_sorted(t, by);
        lemma_sorted_orderable(t, by);
        lemma_insert_keeps_order(stable_sorted(t, by), s.last(), by);
        assert(s =~= t.push(s.last()));
    }
}

proof fn lemma_sorted_orderable(s: Seq<ProcessInfo>, by: SortBy)
    requires
        all_orderable(s, by),
    ensures
        all_orderable(stable_sorted(s, by), by),
    decreases s.len(),
{
    if s.len() > 0 {
        let t = s.drop_last();
        assert forall|i: int| 0 <= i < t.len() implies orderable(#[trigger] t[i], by) by {
            assert(t[i] == s[i]);
        }
        lemma_sorted(t, by);
        lemma_sorted_orderable(t, by);
        lemma_insert_keeps_order(stable_sorted(t, by), s.last(), by);
    }
}

/// `a` comes before `b` in lexicographic order, deciding at position `k`: the two agree
/// on their first `k` characters, and there `a` ends while `b` goes on, or `a`'s
/// character is the smaller.
pub open spec fn lex_before_at(a: Seq<char>, b: Seq<char>, k: int) -> bool {
    &&& 0 <= k <= a.len()
    &&& k <= b.len()
    &&& a.take(k) == b.take(k)
    &&& ((k == a.len() && k < b.len()) || (k < a.len() && k < b.len() && (a[k] as u32) < (b[k] as u32)))
}

/// Names are ordered lexicographically by character, as `String`'s order does (for
/// UTF-8, character order and byte order agree): `a` comes before `b` exactly when at
/// some position they stop agreeing with `a` ended or holding the smaller character.
pub proof fn lemma_name_order_is_lexicographic(a: Seq<char>, b: Seq<char>)
    ensures
        text_lt(a, b) <==> exists|k: int| #[trigger] lex_before_at(a, b, k),
    decreases a.len(),
{
    if a.len() == 0 {
        if b.len() > 0 {
            assert(a.take(0) =~= b.take(0));
            assert(lex_before_at(a, b, 0));
        }
    } else if b.len() == 0 {
    } else if a[0] != b[0] {
        if (a[0] as u32) < (b[0] as u32) {
            assert(a.take(0) =~= b.take(0));
            assert(lex_before_at(a, b, 0));
        }
        if exists|k: int| #[trigger] lex_before_at(a, b, k) {
            let k = choose|k: int| #[trigger] lex_before_at(a, b, k);
            if k > 0 {
                assert(a.take(k)[0] == b.take(k)[0]);
                assert(false);
            }
        }
    } else {
        let a1 = a.drop_first();
        let b1 = b.drop_first();
        lemma_name_order_is_lexicographic(a1, b1);
        if text_lt(a1, b1) {
            let k = choose|k: int| #[trigger] lex_before_at(a1, b1, k);
            assert(a.take(k + 1) =~= seq![a[0]] + a1.take(k));
            assert(b.take(k + 1) =~= seq![b[0]] + b1.take(k));
            assert(lex_before_at(a, b, k + 1));
        }
        if exists|k: int| #[trigger] lex_before_at(a, b, k) {
            let k = choose|k: int| #[trigger] lex_before_at(a, b, k);
            assert(k > 0);
            assert(a1.take(k - 1) =~= a.take(k).drop_first());
            assert(b1.take(k - 1) =~= b.take(k).drop_first());
            assert(lex_before_at(a1, b1, k - 1));
        }
    }
}

/// A name comes before every longer name that starts with it (the empty name before
/// every other), and never after it.
pub proof fn lemma_prefix_comes_first(a: Seq<char>, b: Seq<char>)
    requires
        b.len() > 0,
    ensures
        text_lt(a, a + b),
        !text_lt(a + b, a),
{
    assert((a + b).take(a.len() as int) =~= a.take(a.len() as int));
    assert(lex_before_at(a, a + b, a.len() as int));
    lemma_name_order_is_lexicographic(a, a + b);
    lemma_text_lt_asymmetric(a, a + b);
}

/// The two processes have the same sort key: the same CPU reading, memory, PID or name.
pub open spec fn same_key(a: ProcessInfo, b: ProcessInfo, by: SortBy) -> bool {
    match by {
        SortBy::Cpu => a.cpu_percent.bits == b.cpu_percent.bits,
        SortBy::Memory => a.memory_bytes == b.memory_bytes,
        SortBy::Pid => a.pid == b.pid,
        SortBy::Name => a.name@ == b.name@,
    }
}

proof fn lemma_filter_push(s: Seq<ProcessInfo>, a: ProcessInfo, pred: spec_fn(ProcessInfo) -> bool)
    ensures
        s.push(a).filter(pred) == (if pred(a) { s.filter(pred).push(a) } else { s.filter(pred) }),
{
    reveal_with_fuel(Seq::filter, 1);
    assert(s.push(a).drop_last() =~= s);
}

proof fn lemma_insert_filter(t: Seq<ProcessInfo>, x: ProcessInfo, by: SortBy, pred: spec_fn(ProcessInfo) -> bool)
    requires
        forall|a: ProcessInfo, b: ProcessInfo| pred(a) && pred(b) ==> !#[trigger] goes_before(a, b, by),
    ensures
        insert_ordered(t, x, by).filter(pred) == (if pred(x) { t.filter(pred).push(x) } else { t.filter(pred) }),
    decreases t.len(),
{
    if t.len() == 0 {
        lemma_filter_push(t, x, pred);
        assert(t.push(x) =~= seq![x]);
    } else if goes_before(x, t.last(), by) {
        let t1 = t.drop_last();
        lemma_insert_filter(t1, x, by, pred);
        lemma_filter_push(insert_ordered(t1, x, by), t.last(), pred);
        lemma_filter_push(t1, t.last(), pred);
        assert(t1.push(t.last()) =~= t);
        if pred(x) {
            assert(!pred(t.last()));
        }
    } else {
        lemma_filter_push(t, x, pred);
    }
}

/// Sorting is stable: the processes that share a sort key with `x` come out in the order
/// they went in.
pub proof fn lemma_sort_is_stable(s: Seq<ProcessInfo>, by: SortBy, x: ProcessInfo)
    ensures
        stable_sorted(s, by).filter(|p: ProcessInfo| same_key(p, x, by)) == s.filter(|p: ProcessInfo| same_key(p, x, by)),
    decreases s.len(),
{
    let pred = |p: ProcessInfo| same_key(p, x, by);
    assert forall|a: ProcessInfo, b: ProcessInfo| pred(a) && pred(b) implies !#[trigger] goes_before(a, b, by) by {
        if by == SortBy::Name {
            lemma_text_lt_irreflexive(a.name@);
        }
    }
    if s.len() == 0 {
        reveal_with_fuel(Seq::filter, 1);
    } else {
        let t = s.drop_last();
        lemma_sort_is_stable(t, by, x);
        lemma_insert_filter(stable_sorted(t, by), s.last(), by, pred);
        lemma_filter_push(t, s.last(), pred);
        assert(t.push(s.last()) =~= s);
    }
}

/// Sorted processes are in order of their keys: by CPU, no later process reads more; by
/// memory, none uses more; by PID, none has a lower PID; by name, no later name comes
/// first.
pub proof fn lemma_sorted_by_key(s: Seq<ProcessInfo>, by: SortBy)
    requires
        all_orderable(s, by),
    ensures
        forall|i: int, j: int| 0 <= i < j < stable_sorted(s, by).len() ==> {
            let a = #[trigger] stable_sorted(s, by)[i];
            let b = #[trigger] stable_sorted(s, by)[j];
            &&& by == SortBy::Cpu ==> !single_lt(a.cpu_percent.bits, b.cpu_percent.bits)
            &&& by == SortBy::Memory ==> a.memory_bytes >= b.memory_bytes
            &&& by == SortBy::Pid ==> a.pid <= b.pid
            &&& by == SortBy::Name ==> !text_lt(b.name@, a.name@)
        },
{
    lemma_sorted(s, by);
    let r = stable_sorted(s, by);
    assert forall|i: int, j: int| 0 <= i < j < r.len() implies {
        let a = #[trigger] r[i];
        let b = #[trigger] r[j];
        &&& by == SortBy::Cpu ==> !single_lt(a.cpu_percent.bits, b.cpu_percent.bits)
        &&& by == SortBy::Memory ==> a.memory_bytes >= b.memory_bytes
        &&& by == SortBy::Pid ==> a.pid <= b.pid
        &&& by == SortBy::Name ==> !text_lt(b.name@, a.name@)
    } by {
        assert(!goes_before(r[j], r[i], by));
    }
}

/// A list already in order comes out of the sort unchanged.
pub proof fn lemma_sorted_input_unchanged(s: Seq<ProcessInfo>, by: SortBy)
    requires
        in_order(s, by),
    ensures
        stable_sorted(s, by) == s,
    decreases s.len(),
{
    if s.len() > 0 {
        let t = s.drop_last();
        assert forall|i: int, j: int| 0 <= i < j < t.len() implies !goes_before(#[trigger] t[j], #[trigger] t[i], by) by {
            assert(t[i] == s[i] && t[j] == s[j]);
        }
        lemma_sorted_input_unchanged(t, by);
        if t.len() > 0 {
            assert(!goes_before(s[s.len() - 1], s[s.len() - 2], by));
        }
        assert(t.push(s.last()) =~= s);
    }
}

} // verus!
