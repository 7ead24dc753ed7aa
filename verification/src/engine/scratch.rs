//! The names of scratch files, and which of them an earlier run left behind.

use crate::text;
use crate::text::laws;
use vstd::prelude::*;
use vstd::string::*;

verus! {

/// The sibling `.xget` path a download writes to before it is renamed into place: the output name with
/// `.xget` appended, so a multi-part extension like `.tar.gz` is preserved.
pub fn part_path(output: &str) -> (path: String)
    ensures
        path@ == output@ + ".xget"@,
{
    let mut path = output.to_owned();
    path.append(".xget");
    path
}

/// The name of the `n`-th throwaway scratch of process `pid`.
pub open spec fn name_of(pid: u32, n: u64) -> Seq<char> {
    "xget-"@ + text::model::decimal(pid as nat) + seq!['-'] + text::model::decimal(n as nat) + ".xget"@
}

/// The name of the `n`-th throwaway scratch of process `pid`, for a download that keeps no file. Two
/// downloads of one process never share a name as long as they have different numbers.
pub fn scratch_name(pid: u32, n: u64) -> (name: String)
    ensures
        name@ == name_of(pid, n),
{
    let mut name = String::new();
    name.append("xget-");
    text::push_decimal(&mut name, pid as u64);
    name.push('-');
    text::push_decimal(&mut name, n);
    name.append(".xget");
    assert(name@ =~= name_of(pid, n));
    name
}

/// The process that a scratch name tells of: `xget-<pid>-<n>.xget`, both numbers in range.
pub open spec fn owner(name: Seq<char>) -> Option<u32> {
    match text::model::strip_prefix(name, "xget-"@) {
        Some(rest) => match text::model::strip_suffix(rest, ".xget"@) {
            Some(fields) => match text::model::split_once(fields, '-') {
                Some((pid, counter)) => match (
                    text::model::parse_uint(counter, u64::MAX as nat),
                    text::model::parse_uint(pid, u32::MAX as nat),
                ) {
                    (Some(_), Some(pid)) => Some(pid as u32),
                    _ => None,
                },
                None => None,
            },
            None => None,
        },
        None => None,
    }
}

/// The pid embedded in a throwaway scratch name `xget-<pid>-<n>.xget`, if the name matches exactly (both
/// fields numeric), so a user file that happens to sit in the temp dir is never matched.
pub fn orphan_pid(name: &str) -> (pid: Option<u32>)
    ensures
        pid == owner(name@),
{
    let chars = text::chars_of(name);
    let rest = match text::strip_prefix(&chars, "xget-") {
        Some(rest) => rest,
        None => return None,
    };
    let fields = match text::strip_suffix(rest, ".xget") {
        Some(fields) => fields,
        None => return None,
    };
    let (pid, counter) = match text::split_once(fields, '-') {
        Some(pair) => pair,
        None => return None,
    };
    match text::parse_u64(counter) {
        Some(_) => text::parse_u32(pid),
        None => None,
    }
}

/// The process to ask after before a file called `name` is removed: `None` where the file is no throwaway
/// scratch, or one of this process's own.
pub fn suspect(name: &str, me: u32) -> (pid: Option<u32>)
    ensures
        pid == (if owner(name@) == Some(me) {
            None::<u32>
        } else {
            owner(name@)
        }),
{
    match orphan_pid(name) {
        Some(pid) => if pid == me {
            None
        } else {
            Some(pid)
        },
        None => None,
    }
}

/// Whether a scratch is removed: only when the process that made it is gone.
pub open spec fn removed(name: Seq<char>, me: u32, alive: bool) -> bool {
    owner(name) is Some && owner(name) != Some(me) && !alive
}

/// Whether the file called `name` is an orphan to remove, given whether the process it names is alive.
pub fn is_orphan(name: &str, me: u32, alive: bool) -> (r: bool)
    ensures
        r == removed(name@, me, alive),
{
    match suspect(name, me) {
        Some(_) => !alive,
        None => false,
    }
}

/// The process number to send the existence check to, if there can be such a process; there is none beyond
/// the signed range, and then nothing is known to be gone.
pub fn signal_target(pid: u32) -> (target: Option<i32>)
    ensures
        target == (if pid <= i32::MAX {
            Some(pid as i32)
        } else {
            None::<i32>
        }),
{
    if pid <= 0x7fff_ffff {
        Some(pid as i32)
    } else {
        None
    }
}

/// Whether a process is still running, from the result of the existence check and, where that failed, the
/// error number: it is alive if the check succeeds, or fails for want of permission.
pub fn is_alive(checked: i32, errno: Option<i32>, eperm: i32) -> (alive: bool)
    ensures
        alive == (checked == 0 || errno == Some(eperm)),
{
    checked == 0 || match errno {
        Some(errno) => errno == eperm,
        None => false,
    }
}

/// A scratch name tells of the process that made it.
pub proof fn law_scratch_name_tells_its_owner(pid: u32, n: u64)
    ensures
        owner(name_of(pid, n)) == Some(pid),
{
    let name = name_of(pid, n);
    let a = text::model::decimal(pid as nat);
    let b = text::model::decimal(n as nat);
    let fields = a + seq!['-'] + b;
    let rest = fields + ".xget"@;
    reveal_strlit("xget-");
    reveal_strlit(".xget");
    assert(name =~= "xget-"@ + rest);
    assert("xget-"@ =~= name.subrange(0, "xget-"@.len() as int));
    assert("xget-"@.is_prefix_of(name));
    assert(name.skip("xget-"@.len() as int) =~= rest);
    assert(".xget"@ =~= rest.subrange(rest.len() - ".xget"@.len(), rest.len() as int));
    assert(".xget"@.is_suffix_of(rest));
    assert(rest.take(rest.len() - ".xget"@.len()) =~= fields);
    text::model::lemma_decimal(pid as nat);
    text::model::lemma_decimal(n as nat);
    assert forall|j: int| 0 <= j < a.len() implies #[trigger] fields[j] != '-' by {
        assert(fields[j] == a[j]);
        assert(text::model::is_digit(a[j]));
    }
    text::model::lemma_position_is(fields, '-', a.len() as int);
    assert(fields.take(a.len() as int) =~= a);
    assert(fields.skip(a.len() as int + 1) =~= b);
    text::model::lemma_parse_decimal(pid as nat, u32::MAX as nat);
    text::model::lemma_parse_decimal(n as nat, u64::MAX as nat);
}

/// Two scratches of one process have different names where they have different numbers.
pub proof fn law_scratch_names_are_distinct(pid: u32, m: u64, n: u64)
    requires
        name_of(pid, m) == name_of(pid, n),
    ensures
        m == n,
{
    let a = text::model::decimal(pid as nat);
    let x = text::model::decimal(m as nat);
    let y = text::model::decimal(n as nat);
    let front = "xget-"@ + a + seq!['-'];
    let p = name_of(pid, m);
    let q = name_of(pid, n);
    assert(p.len() == front.len() + x.len() + ".xget"@.len());
    assert(q.len() == front.len() + y.len() + ".xget"@.len());
    assert(p.subrange(front.len() as int, (front.len() + x.len()) as int) =~= x);
    assert(q.subrange(front.len() as int, (front.len() + y.len()) as int) =~= y);
    text::model::lemma_decimal(m as nat);
    text::model::lemma_decimal(n as nat);
}

/// A live download's scratch, this process's own included, is never removed.
pub proof fn law_live_scratch_is_kept(pid: u32, n: u64, me: u32, alive: bool)
    requires
        pid == me || alive,
    ensures
        !removed(name_of(pid, n), me, alive),
{
    law_scratch_name_tells_its_owner(pid, n);
}

/// Only a name of the form `xget-<pid>-<n>.xget` has an owner, so that a file of anyone else's is never taken for
/// a scratch.
pub proof fn law_only_scratch_names_have_owners(name: Seq<char>)
    requires
        owner(name) is Some,
    ensures
        exists|a: Seq<char>, b: Seq<char>|
            name == "xget-"@ + a + seq!['-'] + b + ".xget"@ && laws::free_of(a, '-')
                && #[trigger] text::model::parse_uint(a, u32::MAX as nat) == Some(owner(name)->0 as nat)
                && #[trigger] text::model::parse_uint(b, u64::MAX as nat) is Some,
{
    let rest = text::model::strip_prefix(name, "xget-"@)->0;
    let fields = text::model::strip_suffix(rest, ".xget"@)->0;
    let (a, b) = text::model::split_once(fields, '-')->0;
    laws::law_prefix_and_rest(name, "xget-"@, rest);
    laws::law_prefix_and_rest(rest, ".xget"@, fields);
    text::model::lemma_position(fields, '-');
    assert(fields =~= a + seq!['-'] + b);
    assert(name =~= "xget-"@ + a + seq!['-'] + b + ".xget"@);
    assert(text::model::parse_uint(a, u32::MAX as nat) == Some(owner(name)->0 as nat));
    assert(text::model::parse_uint(b, u64::MAX as nat) is Some);
}

/// A scratch is removed exactly where its owner is another process that is gone.
pub proof fn law_orphans_are_removed(pid: u32, n: u64, me: u32, alive: bool)
    ensures
        removed(name_of(pid, n), me, alive) <==> pid != me && !alive,
{
    law_scratch_name_tells_its_owner(pid, n);
}

} // verus!
