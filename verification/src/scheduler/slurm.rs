//! The Slurm scheduler: submits scripts with `sbatch` and queries the queue
//! with `squeue`. The subprocesses themselves run outside the engine; this
//! module holds the logic around them: what to ask the queue, and how to
//! read what the tools print.

use vstd::prelude::*;
use crate::cluster::Cluster;
use crate::error::Error;
use crate::launcher::Launcher;
use crate::text;
use crate::value::{spec_dec_value, spec_is_digits};

verus! {

/// The Slurm scheduler: a snapshot of the cluster configuration and the
/// launchers available on it.
#[derive(Debug)]
pub struct Slurm {
    /// The cluster this scheduler submits to.
    pub cluster: Cluster,
    /// The launchers available on the cluster, by name.
    pub launchers: Vec<(String, Launcher)>,
}

impl Slurm {
    /// Construct a new Slurm scheduler.
    pub fn new(cluster: Cluster, launchers: Vec<(String, Launcher)>) -> (r: Slurm)
        ensures
            r.cluster == cluster,
            r.launchers == launchers,
    {
        Slurm { cluster, launchers }
    }
}

/// The `--jobs` argument of a queue query over the given jobs: each id in
/// decimal followed by a comma. A single job is preceded by a `1,` entry, so
/// that a lone job missing from the queue is not an error.
pub open spec fn spec_squeue_jobs(jobs: Seq<u32>) -> Seq<char>
    decreases jobs.len(),
{
    if jobs.len() == 0 {
        Seq::empty()
    } else {
        spec_squeue_jobs(jobs.drop_last()) + text::spec_dec_nat(jobs.last() as nat) + seq![',']
    }
}

/// Build the `--jobs` argument for a queue query, or nothing when there are
/// no jobs to ask about: with no jobs, no query process is needed at all.
#[verifier::loop_isolation(false)]
pub fn squeue_jobs_argument(jobs: &Vec<u32>) -> (r: Option<String>)
    ensures
        r is Some <==> jobs@.len() > 0,
        r matches Some(s) ==> s@ == (if jobs@.len() == 1 {
            seq!['1', ',']
        } else {
            Seq::<char>::empty()
        }) + spec_squeue_jobs(jobs@),
{
    if jobs.len() == 0 {
        return None;
    }
    let mut out = String::new();
    if jobs.len() == 1 {
        text::push_str(&mut out, "1,");
        proof {
            reveal_strlit("1,");
        }
    }
    let ghost head = out@;
    let mut i: usize = 0;
    proof {
        assert(spec_squeue_jobs(jobs@.take(0)) =~= Seq::<char>::empty());
        assert(jobs@.take(0) =~= Seq::<u32>::empty());
        assert(head + Seq::<char>::empty() =~= head);
    }
    while i < jobs.len()
        invariant
            i <= jobs@.len(),
            out@ == head + spec_squeue_jobs(jobs@.take(i as int)),
        decreases jobs@.len() - i,
    {
        push_dec_comma(jobs[i], &mut out);
        proof {
            assert(jobs@.take(i as int + 1).drop_last() =~= jobs@.take(i as int));
            assert(jobs@.take(i as int + 1).last() == jobs@[i as int]);
            assert(head + spec_squeue_jobs(jobs@.take(i as int)) + text::spec_dec_nat(
                jobs@[i as int] as nat,
            ) + seq![','] =~= head + (spec_squeue_jobs(jobs@.take(i as int)) + text::spec_dec_nat(
                jobs@[i as int] as nat,
            ) + seq![',']));
        }
        i = i + 1;
    }
    proof {
        assert(jobs@.take(jobs@.len() as int) =~= jobs@);
    }
    Some(out)
}

/// Append one decimal job id and a trailing comma.
fn push_dec_comma(job: u32, out: &mut String)
    ensures
        final(out)@ == old(out)@ + text::spec_dec_nat(job as nat) + seq![','],
{
    text::push_dec_u64(job as u64, out);
    text::push_char(out, ',');
}

/// Parse the output of a submission: a decimal job id, with trailing
/// whitespace ignored. Succeeds exactly when what remains is one or more
/// digits whose value fits a job id.
#[verifier::loop_isolation(false)]
#[verifier::rlimit(100)]
pub fn parse_job_id(s: &str) -> (r: Option<u32>)
    ensures
        r matches Some(id) ==> {
            let t = spec_trim_end(s@);
            spec_is_digits(t) && spec_dec_value(t) == id as nat
        },
        r is None ==> {
            let t = spec_trim_end(s@);
            !spec_is_digits(t) || spec_dec_value(t) > u32::MAX
        },
{
    let len = s.unicode_len();
    // Find the end of the id: ignore trailing whitespace.
    let mut end: usize = len;
    proof {
        assert(s@.take(len as int) =~= s@);
    }
    while end > 0 && is_space(s.get_char(end - 1))
        invariant
            end <= len,
            len == s@.len(),
            spec_trim_end(s@) == spec_trim_end(s@.take(end as int)),
        decreases end,
    {
        proof {
            assert(s@.take(end as int).last() == s@[end as int - 1]);
            assert(s@.take(end as int).drop_last() =~= s@.take(end as int - 1));
        }
        end = end - 1;
    }
    proof {
        if end > 0 {
            assert(s@.take(end as int).last() == s@[end as int - 1]);
        }
        assert(spec_trim_end(s@.take(end as int)) == s@.take(end as int));
    }
    let ghost t = spec_trim_end(s@);
    proof {
        assert(t == s@.take(end as int));
    }
    if end == 0 {
        proof {
            assert(t.len() == 0);
        }
        return None;
    }
    let mut value: u64 = 0;
    let mut i: usize = 0;
    while i < end
        invariant
            i <= end,
            0 < end <= len,
            len == s@.len(),
            t == s@.take(end as int),
            forall|x: int| 0 <= x < i ==> 48 <= #[trigger] (t[x] as u32) <= 57,
            value == spec_dec_value(t.take(i as int)),
            value <= 0xFFFF_FFFF,
        decreases end - i,
    {
        let c = s.get_char(i);
        proof {
            assert(t[i as int] == s@[i as int]);
        }
        let cv = c as u32;
        if cv < 48 || cv > 57 {
            proof {
                assert(!spec_is_digits(t));
            }
            return None;
        }
        proof {
            assert(t.take(i as int + 1).drop_last() =~= t.take(i as int));
            assert(t.take(i as int + 1).last() == t[i as int]);
        }
        let d: u64 = (cv - 48) as u64;
        let next: u64 = value * 10 + d;
        if next > 0xFFFF_FFFF {
            // The id no longer fits; once too large it can only grow.
            proof {
                lemma_dec_value_grows(t, i as int + 1);
            }
            return None;
        }
        value = next;
        i = i + 1;
    }
    proof {
        assert(t.take(end as int) =~= t);
        assert(spec_is_digits(t));
    }
    Some(value as u32)
}

/// Whether a character is horizontal or vertical whitespace.
fn is_space(c: char) -> (r: bool)
    ensures
        r == spec_is_space(c),
{
    c == ' ' || c == '\n' || c == '\r' || c == '\t'
}

/// The whitespace recognized at the end of tool output.
pub open spec fn spec_is_space(c: char) -> bool {
    c == ' ' || c == '\n' || c == '\r' || c == '\t'
}

/// A string with its trailing whitespace removed.
pub open spec fn spec_trim_end(s: Seq<char>) -> Seq<char>
    decreases s.len(),
{
    if s.len() == 0 {
        s
    } else if spec_is_space(s.last()) {
        spec_trim_end(s.drop_last())
    } else {
        s
    }
}

/// Once a digit prefix exceeds the id range, every longer prefix does too.
proof fn lemma_dec_value_grows(t: Seq<char>, i: int)
    requires
        0 <= i <= t.len(),
        spec_dec_value(t.take(i)) > 0xFFFF_FFFF,
    ensures
        spec_dec_value(t) > 0xFFFF_FFFF,
    decreases t.len() - i,
{
    if i < t.len() {
        let v0 = spec_dec_value(t.take(i));
        let v1 = spec_dec_value(t.take(i + 1));
        assert(t.take(i + 1).drop_last() =~= t.take(i));
        assert(t.take(i + 1).last() == t[i]);
        assert(v1 >= v0 * 10) by (nonlinear_arith)
            requires
                v1 == v0 * 10 + (if t[i] as u32 >= 48 {
                    (t[i] as u32 - 48) as nat
                } else {
                    0
                }),
        ;
        assert(v0 * 10 > 0xFFFF_FFFF) by (nonlinear_arith)
            requires
                v0 > 0xFFFF_FFFF,
        ;
        lemma_dec_value_grows(t, i + 1);
    } else {
        assert(t.take(i) =~= t);
    }
}

} // verus!

verus! {

/// The `'\n'`-separated lines of the queue tool's output.
pub open spec fn spec_lines(s: Seq<char>) -> Seq<Seq<char>>
    decreases s.len(),
    via spec_lines_decreases
{
    if s.len() == 0 {
        Seq::empty()
    } else {
        let e = spec_nl_end(s);
        if e == s.len() {
            seq![s]
        } else {
            seq![s.take(e)] + spec_lines(s.skip(e + 1))
        }
    }
}

#[via_fn]
proof fn spec_lines_decreases(s: Seq<char>) {
    lemma_nl_end(s);
}

/// First index of `'\n'` in `s`, or `s.len()` when there is none.
pub open spec fn spec_nl_end(s: Seq<char>) -> int
    decreases s.len(),
{
    if s.len() == 0 {
        0
    } else if s[0] == '\n' {
        0
    } else {
        1 + spec_nl_end(s.drop_first())
    }
}

proof fn lemma_nl_end(s: Seq<char>)
    ensures
        0 <= spec_nl_end(s) <= s.len(),
        spec_nl_end(s) < s.len() ==> s[spec_nl_end(s)] == '\n',
        forall|i: int| 0 <= i < spec_nl_end(s) ==> s[i] != '\n',
    decreases s.len(),
{
    if s.len() != 0 && s[0] != '\n' {
        lemma_nl_end(s.drop_first());
        assert forall|i: int| 0 <= i < spec_nl_end(s) implies s[i] != '\n' by {
            if i > 0 {
                assert(s.drop_first()[i - 1] == s[i]);
            }
        }
    }
}

/// Whether one output line reads as a job id: digits (after trailing
/// whitespace) whose value fits.
pub open spec fn spec_line_ok(l: Seq<char>) -> bool {
    spec_is_digits(spec_trim_end(l)) && spec_dec_value(spec_trim_end(l)) <= u32::MAX
}

/// The job id one output line reads as.
pub open spec fn spec_line_id(l: Seq<char>) -> nat {
    spec_dec_value(spec_trim_end(l))
}

/// Parse the output of the queue query: one job id per line. `None` exactly
/// when some line does not read as a job id; otherwise every reported id,
/// each once.
#[verifier::loop_isolation(false)]
#[verifier::rlimit(100)]
pub fn parse_active_jobs(s: &str) -> (r: Option<Vec<u32>>)
    ensures
        r is Some <==> (forall|k: int|
            0 <= k < spec_lines(s@).len() ==> spec_line_ok(#[trigger] spec_lines(s@)[k])),
        r matches Some(ids) ==> ids@.no_duplicates() && (forall|id: u32|
            ids@.contains(id) <==> exists|k: int|
                0 <= k < spec_lines(s@).len() && spec_line_id(#[trigger] spec_lines(s@)[k])
                    == id),
{
    let len = s.unicode_len();
    let mut ids: Vec<u32> = Vec::new();
    let mut pos: usize = 0;
    let ghost all = spec_lines(s@);
    let ghost mut done: int = 0;
    proof {
        assert(s@.skip(0) =~= s@);
    }
    while pos < len
        invariant
            pos <= len,
            len == s@.len(),
            0 <= done,
            all == spec_lines(s@),
            spec_lines(s@.skip(pos as int)) == all.skip(done),
            done <= all.len(),
            pos < len ==> done < all.len(),
            ids@.no_duplicates(),
            forall|k: int| 0 <= k < done ==> spec_line_ok(#[trigger] all[k]),
            forall|id: u32|
                ids@.contains(id) <==> exists|k: int|
                    0 <= k < done && spec_line_id(#[trigger] all[k]) == id,
        decreases len - pos,
    {
        let ghost rest = s@.skip(pos as int);
        // Find the end of this line.
        let mut e: usize = pos;
        while e < len && s.get_char(e) != '\n'
            invariant
                pos <= e <= len,
                forall|i: int| pos <= i < e ==> s@[i] != '\n',
            decreases len - e,
        {
            e = e + 1;
        }
        proof {
            lemma_nl_end(rest);
            assert forall|i: int| 0 <= i < (e - pos) implies rest[i] != '\n' by {
                assert(rest[i] == s@[pos + i]);
            }
            if e < len {
                assert(rest[e - pos] == s@[e as int]);
            }
            if spec_nl_end(rest) < e - pos {
                assert(rest[spec_nl_end(rest)] == '\n');
            }
            if spec_nl_end(rest) > e - pos {
                assert(e - pos < rest.len());
            }
            assert(spec_nl_end(rest) == e - pos);
        }
        let ghost line = if e == len {
            rest
        } else {
            rest.take((e - pos) as int)
        };
        proof {
            assert(all.skip(done)[0] == all[done]);
            assert(all[done] == line) by {
                if e == len {
                    assert(spec_nl_end(rest) == rest.len());
                } else {
                    assert(rest.take((e - pos) as int) =~= rest.take(spec_nl_end(rest)));
                }
            }
        }
        let piece = s.substring_char(pos, e);
        proof {
            assert(piece@ =~= line);
        }
        match parse_job_id(piece) {
            None => {
                proof {
                    assert(!spec_line_ok(all[done]));
                }
                return None;
            },
            Some(id) => {
                let ghost before = ids@;
                let dup = crate::state::contains_u32(&ids, id);
                if !dup {
                    ids.push(id);
                    proof {
                        assert(ids@ =~= before.push(id));
                        assert forall|x: u32| ids@.contains(x) <==> before.contains(x) || x
                            == id by {
                            if before.contains(x) {
                                let y = choose|y: int|
                                    0 <= y < before.len() && before[y] == x;
                                assert(ids@[y] == x);
                            }
                            if x == id {
                                assert(ids@[before.len() as int] == x);
                            }
                            if ids@.contains(x) {
                                let y = choose|y: int| 0 <= y < ids@.len() && ids@[y] == x;
                                if y < before.len() {
                                    assert(before[y] == x);
                                }
                            }
                        }
                        assert(ids@.no_duplicates()) by {
                            assert forall|x: int, y: int|
                                0 <= x < ids@.len() && 0 <= y < ids@.len() && x != y implies
                                ids@[x] != ids@[y] by {
                                if x < before.len() && y < before.len() {
                                    assert(before[x] == ids@[x] && before[y] == ids@[y]);
                                } else if x < before.len() {
                                    assert(before[x] == ids@[x]);
                                    if ids@[x] == ids@[y] {
                                        assert(before.contains(ids@[y]));
                                    }
                                } else if y < before.len() {
                                    assert(before[y] == ids@[y]);
                                    if ids@[x] == ids@[y] {
                                        assert(before.contains(ids@[x]));
                                    }
                                }
                            }
                        }
                    }
                }
                proof {
                    assert(spec_line_ok(all[done]) && spec_line_id(all[done]) == id);
                    assert forall|x: u32|
                        ids@.contains(x) <==> exists|k: int|
                            0 <= k < done + 1 && spec_line_id(#[trigger] all[k]) == x by {
                        if exists|k: int| 0 <= k < done && spec_line_id(#[trigger] all[k]) == x {
                            let k = choose|k: int|
                                0 <= k < done && spec_line_id(#[trigger] all[k]) == x;
                            assert(0 <= k < done + 1 && spec_line_id(all[k]) == x);
                            assert(before.contains(x));
                        }
                        if exists|k: int|
                            0 <= k < done + 1 && spec_line_id(#[trigger] all[k]) == x {
                            let k = choose|k: int|
                                0 <= k < done + 1 && spec_line_id(#[trigger] all[k]) == x;
                            if k == done {
                                assert(x == id);
                                if dup {
                                    assert(before.contains(x));
                                }
                            }
                        }
                        if ids@.contains(x) && !before.contains(x) {
                            assert(x == id);
                        }
                    }
                }
            },
        }
        proof {
            if e < len {
                assert(rest.skip((e - pos) as int + 1) =~= s@.skip(e as int + 1));
                assert(all.skip(done).drop_first() =~= all.skip(done + 1));
            } else {
                assert(all.skip(done).drop_first() =~= all.skip(done + 1));
                assert(s@.skip(len as int).len() == 0);
                assert(spec_lines(s@.skip(len as int)) =~= Seq::<Seq<char>>::empty());
            }
            done = done + 1;
        }
        if e == len {
            pos = len;
        } else {
            pos = e + 1;
        }
        proof {
            if pos < len {
                assert(s@.skip(pos as int).len() > 0);
                assert(spec_lines(s@.skip(pos as int)).len() >= 1);
                assert(all.skip(done).len() >= 1);
            }
        }
    }
    proof {
        assert(spec_lines(s@.skip(len as int)) =~= Seq::<Seq<char>>::empty());
        assert(all.skip(done).len() == 0);
        assert(done == all.len());
    }
    Some(ids)
}

} // verus!
