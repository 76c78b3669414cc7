//! The chat processes that have to end with the server.

use std::collections::HashSet;

use vstd::prelude::*;
use vstd::std_specs::iter::IteratorSpec;

verus! {

/// The chat processes that are running, over all connections.
pub struct ChatProcessTracker {
    pids: HashSet<u32>,
}

impl View for ChatProcessTracker {
    type V = Set<u32>;

    closed spec fn view(&self) -> Set<u32> {
        self.pids@
    }
}

/// What is sent to the process group of a pid in order to end it.
pub open spec fn group_of(pid: u32) -> int {
    -(if pid < 0x8000_0000 {
        pid as int
    } else {
        pid - 0x1_0000_0000
    })
}

/// The target that addresses the whole process group of a pid. One whose sign
/// cannot be turned addresses itself.
pub fn process_group(pid: u32) -> (r: i32)
    ensures
        pid != 0x8000_0000 ==> r == group_of(pid),
        pid == 0x8000_0000 ==> r == i32::MIN,
{
    if pid < 0x8000_0000 {
        -(pid as i32)
    } else if pid == 0x8000_0000 {
        i32::MIN
    } else {
        (0xffff_ffff - pid + 1) as i32
    }
}

impl ChatProcessTracker {
    /// No processes.
    pub fn new() -> (r: Self)
        ensures
            r@ == Set::<u32>::empty(),
    {
        ChatProcessTracker { pids: HashSet::new() }
    }

    /// Lists a process that was started.
    pub fn register(&mut self, pid: u32)
        ensures
            final(self)@ == old(self)@.insert(pid),
    {
        broadcast use vstd::std_specs::hash::group_hash_axioms;

        self.pids.insert(pid);
    }

    /// Takes a process off the list.
    pub fn unregister(&mut self, pid: u32)
        ensures
            final(self)@ == old(self)@.remove(pid),
    {
        broadcast use vstd::std_specs::hash::group_hash_axioms;

        self.pids.remove(&pid);
    }

    /// Takes every process off the list and gives them, each once, so that they
    /// can be ended.
    pub fn kill_all(&mut self) -> (r: Vec<u32>)
        ensures
            final(self)@ == Set::<u32>::empty(),
            r@.to_set() == old(self)@,
            r@.no_duplicates(),
    {
        broadcast use vstd::std_specs::hash::group_hash_axioms;

        let mut out: Vec<u32> = Vec::new();
        let ghost all = self.pids@;
        let ghost keys = vstd::std_specs::hash::spec_hash_keys_iter(&self.pids).remaining().unref();
        for pid in it: self.pids.iter()
            invariant
                it.seq().unref() == keys,
                keys.to_set() == all,
                keys.no_duplicates(),
                out@ == keys.take(it.index()),
        {
            out.push(*pid);
            assert(out@ =~= keys.take(it.index() + 1));
        }
        assert(out@ =~= keys);
        self.pids.clear();
        out
    }
}

impl Default for ChatProcessTracker {
    fn default() -> (r: Self)
        ensures
            r@ == Set::<u32>::empty(),
    {
        ChatProcessTracker::new()
    }
}

/// The group of a process is addressed by its number with the sign turned.
pub proof fn groups_are_addressed_by_their_number(pid: u32)
    requires
        pid <= i32::MAX,
    ensures
        group_of(pid) == -pid,
        group_of(pid) + pid == 0,
{
}

} // verus!
