use vstd::prelude::*;

verus! {

/// Threads that have ended and wait to be cleaned up, named by their
/// identifiers: the one that ended last is taken first.
pub struct ZombieManager {
    zombies_list: Vec<usize>,
}

impl View for ZombieManager {
    type V = Seq<usize>;

    /// The waiting threads, the one taken next first.
    closed spec fn view(&self) -> Seq<usize> {
        self.zombies_list@
    }
}

impl ZombieManager {
    /// No thread waits.
    pub fn new() -> (z: Self)
        ensures
            z@ == Seq::<usize>::empty(),
    {
        ZombieManager { zombies_list: Vec::new() }
    }

    /// Adds an ended thread; it is the next one taken.
    pub fn zombie_enqueue(&mut self, thread: usize)
        ensures
            final(self)@ == seq![thread] + old(self)@,
    {
        self.zombies_list.insert(0, thread);
        assert(old(self)@.insert(0, thread) =~= seq![thread] + old(self)@);
    }

    /// Takes the thread that ended last, if any.
    pub fn zombie_dequeue(&mut self) -> (r: Option<usize>)
        ensures
            old(self)@.len() == 0 ==> r is None && final(self)@ == old(self)@,
            old(self)@.len() > 0 ==> r == Some(old(self)@[0]) && final(self)@ == old(self)@.drop_first(),
    {
        if self.zombies_list.len() == 0 {
            return None;
        }
        let t = self.zombies_list.remove(0);
        assert(old(self)@.remove(0) =~= old(self)@.drop_first());
        Some(t)
    }

    /// Takes every waiting thread, in the order they are taken, for the
    /// caller to clean up: detach a static thread's object, run the
    /// thread's cleanup, and give back a heap thread's stack and object.
    pub fn reclaim(&mut self) -> (r: Vec<usize>)
        ensures
            r@ == old(self)@,
            final(self)@ == Seq::<usize>::empty(),
    {
        let mut out: Vec<usize> = Vec::new();
        loop
            invariant
                out@ + self@ == old(self)@,
            ensures
                out@ == old(self)@,
                self@ == Seq::<usize>::empty(),
            decreases self@.len(),
        {
            let ghost before = self@;
            match self.zombie_dequeue() {
                Some(t) => {
                    out.push(t);
                    assert(out@ + self@ =~= old(self)@) by {
                        assert(before =~= seq![t] + self@);
                    }
                },
                None => {
                    assert(out@ + self@ =~= out@);
                    break;
                },
            }
        }
        out
    }
}

} // verus!
